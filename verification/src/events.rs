//! Scheduled events and the selection of the day's cycling workout.

use vstd::prelude::*;

verus! {

/// One scheduled event as reported by the events endpoint: a platform-assigned
/// id, an activity-category tag, and a human-readable name.
pub struct Workout {
    pub id: i32,
    pub workout_type: String,
    pub name: String,
}

/// The activity-category tags that count as a cycling workout. Matching is
/// exact, case-sensitive string equality. The virtual-ride tag has been
/// spelled both with and without a space in this client's history; the
/// spelling without a space is kept here pending confirmation against a
/// live response, and this spec function is the one place to change it.
pub open spec fn is_cycling(tag: Seq<char>) -> bool {
    tag == "Ride"@ || tag == "VirtualRide"@
}

/// The id and name of the first event in list order whose tag is a cycling
/// tag, or `None` when no event matches.
pub open spec fn first_cycling(ws: Seq<Workout>) -> Option<(i32, Seq<char>)>
    decreases ws.len(),
{
    if ws.len() == 0 {
        None
    } else if is_cycling(ws[0].workout_type@) {
        Some((ws[0].id, ws[0].name@))
    } else {
        first_cycling(ws.drop_first())
    }
}

/// A cycling event at position `i`, with none before it, is the one that
/// `first_cycling` selects: non-cycling entries before or after it are
/// ignored.
pub proof fn lemma_first_cycling_found(ws: Seq<Workout>, i: int)
    requires
        0 <= i < ws.len(),
        is_cycling(ws[i].workout_type@),
        forall|j: int| 0 <= j < i ==> !is_cycling(ws[j].workout_type@),
    ensures
        first_cycling(ws) == Some((ws[i].id, ws[i].name@)),
    decreases i,
{
    if i > 0 {
        lemma_first_cycling_found(ws.drop_first(), i - 1);
    }
}

/// A list with no cycling entry (in particular an empty list) selects
/// nothing.
pub proof fn lemma_first_cycling_none(ws: Seq<Workout>)
    requires
        forall|j: int| 0 <= j < ws.len() ==> !is_cycling(ws[j].workout_type@),
    ensures
        first_cycling(ws) is None,
    decreases ws.len(),
{
    if ws.len() > 0 {
        lemma_first_cycling_none(ws.drop_first());
    }
}

/// Walks the event list in order and returns the id and name of the first
/// cycling-type entry, or `None` when the list holds none.
pub fn select_workout(ws: &Vec<Workout>) -> (r: Option<(i32, String)>)
    ensures
        r is Some <==> first_cycling(ws@) is Some,
        r is Some ==> {
            let (id, name) = r->0;
            first_cycling(ws@) == Some((id, name@))
        },
{
    let ride = String::from_str("Ride");
    let virtual_ride = String::from_str("VirtualRide");
    let n = ws.len();
    let mut i: usize = 0;
    proof {
        assert(ws@.skip(0) =~= ws@);
    }
    while i < n
        invariant
            n == ws@.len(),
            0 <= i <= n,
            ride@ == "Ride"@,
            virtual_ride@ == "VirtualRide"@,
            first_cycling(ws@) == first_cycling(ws@.skip(i as int)),
        decreases n - i,
    {
        let w = &ws[i];
        if w.workout_type == ride || w.workout_type == virtual_ride {
            proof {
                assert(ws@.skip(i as int)[0] == ws@[i as int]);
            }
            return Some((w.id, w.name.clone()));
        }
        proof {
            assert(ws@.skip(i as int).drop_first() =~= ws@.skip(i as int + 1));
        }
        i = i + 1;
    }
    proof {
        assert(ws@.skip(n as int) =~= Seq::<Workout>::empty());
    }
    None
}

} // verus!
