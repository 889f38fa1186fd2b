use vstd::prelude::*;
use crate::bytes::{bytes_eq, copy_bytes};

verus! {

/// The view of one event row.
pub ghost struct EventView {
    pub id: u128,
    pub name: Seq<u8>,
    pub topic: Seq<u8>,
    pub policy: Option<Seq<u8>>,
    pub data: Seq<u8>,
    pub added_at: u64,
}

/// One event row: a globally unique identifier, the type label delivered to
/// clients, the channel key, an optional access policy (absent means
/// publicly viewable), the single-line payload, and the insertion timestamp
/// that orders replay.
pub struct Event {
    pub id: u128,
    pub name: Vec<u8>,
    pub topic: Vec<u8>,
    pub policy: Option<Vec<u8>>,
    pub data: Vec<u8>,
    pub added_at: u64,
}

impl View for Event {
    type V = EventView;

    open spec fn view(&self) -> EventView {
        EventView {
            id: self.id,
            name: self.name@,
            topic: self.topic@,
            policy: match self.policy {
                Option::None => Option::None,
                Option::Some(ref p) => Option::Some(p@),
            },
            data: self.data@,
            added_at: self.added_at,
        }
    }
}

/// The views of an event list.
pub open spec fn events_view(es: Seq<Event>) -> Seq<EventView> {
    es.map_values(|e: Event| e@)
}

/// The event table's invariant: rows stand in insertion order with strictly
/// increasing timestamps (the timestamp column must be fine enough to make
/// collisions impossible), and identifiers never repeat.
pub open spec fn table_wf(t: Seq<EventView>) -> bool {
    (forall|i: int, j: int| 0 <= i < j < t.len() ==> t[i].added_at < t[j].added_at) && (forall|
        i: int,
        j: int,
    |
        0 <= i < j < t.len() ==> t[i].id != t[j].id)
}

/// The insertion timestamp of the row carrying `pivot`, if any row does.
pub open spec fn find_added_at(t: Seq<EventView>, pivot: u128) -> Option<u64>
    decreases t.len(),
{
    if t.len() == 0 {
        None
    } else if t[0].id == pivot {
        Some(t[0].added_at)
    } else {
        find_added_at(t.drop_first(), pivot)
    }
}

/// The rows of `t` with the wanted topic, a timestamp at or after the cut,
/// and an identifier other than the pivot's, in table order. The comparison
/// is inclusive so that rows sharing the pivot's exact timestamp survive;
/// the pivot row itself is excluded by identifier.
pub open spec fn replay_filter(t: Seq<EventView>, topic: Seq<u8>, cut: u64, pivot: u128) -> Seq<
    EventView,
>
    decreases t.len(),
{
    if t.len() == 0 {
        Seq::empty()
    } else {
        let rest = replay_filter(t.drop_first(), topic, cut, pivot);
        if t[0].topic == topic && t[0].added_at >= cut && t[0].id != pivot {
            seq![t[0]] + rest
        } else {
            rest
        }
    }
}

/// What catch-up replay returns: exactly the events of the topic whose
/// timestamp is at or after the pivot row's, the pivot itself excluded, in
/// ascending timestamp order. A pivot that no row carries yields the empty,
/// non-error result.
pub open spec fn spec_replay(t: Seq<EventView>, topic: Seq<u8>, pivot: u128) -> Seq<EventView> {
    match find_added_at(t, pivot) {
        None => Seq::empty(),
        Some(cut) => replay_filter(t, topic, cut, pivot),
    }
}

/// A fresh copy of one event row.
pub fn event_clone(e: &Event) -> (r: Event)
    ensures
        r@ == e@,
{
    Event {
        id: e.id,
        name: copy_bytes(&e.name),
        topic: copy_bytes(&e.topic),
        policy: match &e.policy {
            None => None,
            Some(p) => Some(copy_bytes(p)),
        },
        data: copy_bytes(&e.data),
        added_at: e.added_at,
    }
}

/// Finds the insertion timestamp of the pivot row.
fn find_cut(table: &Vec<Event>, pivot: u128) -> (r: Option<u64>)
    ensures
        r == find_added_at(events_view(table@), pivot),
{
    let ghost tv = events_view(table@);
    proof {
        assert(tv.skip(0) =~= tv);
    }
    let mut i: usize = 0;
    while i < table.len()
        invariant
            i <= table@.len(),
            tv == events_view(table@),
            find_added_at(tv, pivot) == find_added_at(tv.skip(i as int), pivot),
        decreases table@.len() - i,
    {
        proof {
            assert(tv.skip(i as int)[0] == tv[i as int]);
        }
        if table[i].id == pivot {
            return Some(table[i].added_at);
        }
        i += 1;
        proof {
            assert(tv.skip(i as int - 1).drop_first() =~= tv.skip(i as int));
        }
    }
    proof {
        assert(tv.skip(table@.len() as int) =~= Seq::<EventView>::empty());
    }
    None
}

/// Computes the catch-up replay over the table rows: exactly the events with
/// the wanted topic and `added_at` at or after the pivot's, the pivot row
/// excluded, in table order. Because the result is a function of the table
/// alone, repeated calls against unchanged data return the same rows.
pub fn replay(table: &Vec<Event>, topic: &Vec<u8>, pivot: u128) -> (r: Vec<Event>)
    ensures
        events_view(r@) == spec_replay(events_view(table@), topic@, pivot),
{
    let ghost tv = events_view(table@);
    let cut: u64 = match find_cut(table, pivot) {
        None => {
            proof {
                assert(events_view(Seq::<Event>::empty()) =~= Seq::<EventView>::empty());
            }
            return Vec::new();
        },
        Some(c) => c,
    };
    let mut out: Vec<Event> = Vec::new();
    let mut j: usize = 0;
    proof {
        assert(tv.skip(0) =~= tv);
        assert(events_view(out@) + replay_filter(tv.skip(0), topic@, cut, pivot) =~= replay_filter(
            tv,
            topic@,
            cut,
            pivot,
        ));
    }
    while j < table.len()
        invariant
            j <= table@.len(),
            tv == events_view(table@),
            find_added_at(tv, pivot) == Some(cut),
            events_view(out@) + replay_filter(tv.skip(j as int), topic@, cut, pivot)
                == replay_filter(tv, topic@, cut, pivot),
        decreases table@.len() - j,
    {
        let e = &table[j];
        proof {
            assert(tv.skip(j as int)[0] == tv[j as int]);
            assert(tv.skip(j as int).drop_first() =~= tv.skip(j as int + 1));
        }
        let ghost prev = events_view(out@);
        if bytes_eq(e.topic.as_slice(), topic.as_slice()) && e.added_at >= cut && e.id != pivot {
            out.push(event_clone(e));
            proof {
                assert(events_view(out@) =~= prev + seq![tv[j as int]]);
                assert((prev + seq![tv[j as int]]) + replay_filter(
                    tv.skip(j as int + 1),
                    topic@,
                    cut,
                    pivot,
                ) =~= prev + (seq![tv[j as int]] + replay_filter(
                    tv.skip(j as int + 1),
                    topic@,
                    cut,
                    pivot,
                )));
            }
        }
        j += 1;
    }
    proof {
        assert(tv.skip(table@.len() as int) =~= Seq::<EventView>::empty());
        assert(events_view(out@) + Seq::<EventView>::empty() =~= events_view(out@));
    }
    out
}

/// Every row of the filtered sequence keeps a timestamp above `a` when every
/// row of the table does.
proof fn lemma_filter_above(t: Seq<EventView>, topic: Seq<u8>, cut: u64, pivot: u128, a: u64)
    requires
        forall|k: int| 0 <= k < t.len() ==> t[k].added_at > a,
    ensures
        forall|k: int|
            0 <= k < replay_filter(t, topic, cut, pivot).len() ==> replay_filter(
                t,
                topic,
                cut,
                pivot,
            )[k].added_at > a,
    decreases t.len(),
{
    if t.len() > 0 {
        assert(forall|k: int| 0 <= k < t.drop_first().len() ==> t.drop_first()[k].added_at > a);
        lemma_filter_above(t.drop_first(), topic, cut, pivot, a);
    }
}

/// Replay preserves the table's ascending timestamp order: over a
/// well-formed table its result is strictly ascending in `added_at`.
pub proof fn lemma_replay_sorted(t: Seq<EventView>, topic: Seq<u8>, pivot: u128)
    requires
        table_wf(t),
    ensures
        forall|i: int, j: int|
            0 <= i < j < spec_replay(t, topic, pivot).len() ==> spec_replay(
                t,
                topic,
                pivot,
            )[i].added_at < spec_replay(t, topic, pivot)[j].added_at,
{
    if find_added_at(t, pivot) is Some {
        let cut = find_added_at(t, pivot).unwrap();
        lemma_filter_sorted(t, topic, cut, pivot);
    }
}

proof fn lemma_filter_sorted(t: Seq<EventView>, topic: Seq<u8>, cut: u64, pivot: u128)
    requires
        forall|i: int, j: int| 0 <= i < j < t.len() ==> t[i].added_at < t[j].added_at,
    ensures
        forall|i: int, j: int|
            0 <= i < j < replay_filter(t, topic, cut, pivot).len() ==> replay_filter(
                t,
                topic,
                cut,
                pivot,
            )[i].added_at < replay_filter(t, topic, cut, pivot)[j].added_at,
    decreases t.len(),
{
    if t.len() > 0 {
        let rest = t.drop_first();
        assert(forall|i: int, j: int| 0 <= i < j < rest.len() ==> rest[i].added_at < rest[j].added_at);
        lemma_filter_sorted(rest, topic, cut, pivot);
        assert(forall|k: int| 0 <= k < rest.len() ==> rest[k].added_at > t[0].added_at);
        lemma_filter_above(rest, topic, cut, pivot, t[0].added_at);
        if t[0].topic == topic && t[0].added_at >= cut && t[0].id != pivot {
            let whole = seq![t[0]] + replay_filter(rest, topic, cut, pivot);
            assert(forall|k: int|
                1 <= k < whole.len() ==> whole[k] == replay_filter(rest, topic, cut, pivot)[k - 1]);
        }
    }
}

} // verus!
