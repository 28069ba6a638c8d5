//! Room-wide guarantees of the registry, stated over `apply_spec` and
//! proved once and for all: nobody is told about its own join, leave or
//! message, and membership is exactly joins minus leaves.

use vstd::prelude::*;
use crate::room::{apply_spec, has_handle, has_name, names_of, without_name, EventV, RoomV};
use crate::text::{chat_text, joined_text, left_text, roster_text};

verus! {

/// No two members of `room` share a name.
pub open spec fn names_unique(room: RoomV) -> bool {
    forall|i: int, j: int|
        0 <= i < j < room.len() ==> (#[trigger] room[i]).0 != (#[trigger] room[j]).0
}

/// No two members of `room` share a delivery handle.
pub open spec fn handles_unique(room: RoomV) -> bool {
    forall|i: int, j: int|
        0 <= i < j < room.len() ==> (#[trigger] room[i]).1 != (#[trigger] room[j]).1
}

/// What removing a name leaves behind: only members of `room` with a
/// different name, every differently-named member still present, and
/// uniqueness of names kept.
pub proof fn lemma_without_name_props(room: RoomV, name: Seq<char>)
    ensures
        forall|k: int|
            0 <= k < without_name(room, name).len() ==> (#[trigger] without_name(room, name)[k]).0
                != name && room.contains(without_name(room, name)[k]),
        forall|m: Seq<char>|
            #[trigger] has_name(without_name(room, name), m) <==> (m != name && has_name(room, m)),
        names_unique(room) ==> names_unique(without_name(room, name)),
    decreases room.len(),
{
    let wn = without_name(room, name);
    if room.len() == 0 {
        assert(forall|m: Seq<char>| !(#[trigger] has_name(wn, m)));
        assert(forall|m: Seq<char>| !(#[trigger] has_name(room, m)));
    } else {
        let r2 = room.drop_last();
        let wn2 = without_name(r2, name);
        lemma_without_name_props(r2, name);
        assert(forall|i: int| 0 <= i < r2.len() ==> r2[i] == room[i]);
        assert forall|k: int| 0 <= k < wn.len() implies (#[trigger] wn[k]).0 != name
            && room.contains(wn[k]) by {
            if k < wn2.len() {
                assert(wn[k] == wn2[k]);
                let j = choose|j: int| 0 <= j < r2.len() && r2[j] == wn2[k];
                assert(room[j] == wn[k]);
            } else {
                assert(wn[k] == room.last());
                assert(room[room.len() - 1] == room.last());
            }
        }
        assert forall|m: Seq<char>| #[trigger] has_name(wn, m) implies (m != name && has_name(
            room,
            m,
        )) by {
            let k = choose|k: int| 0 <= k < wn.len() && wn[k].0 == m;
            let j = choose|j: int| 0 <= j < room.len() && room[j] == wn[k];
            assert(room[j].0 == m);
        }
        assert forall|m: Seq<char>| m != name && has_name(room, m) implies #[trigger] has_name(
            wn,
            m,
        ) by {
            let i = choose|i: int| 0 <= i < room.len() && room[i].0 == m;
            if i < room.len() - 1 {
                assert(r2[i].0 == m);
                assert(has_name(r2, m));
                assert(has_name(wn2, m));
                let k = choose|k: int| 0 <= k < wn2.len() && wn2[k].0 == m;
                assert(wn[k] == wn2[k]);
            } else {
                assert(room.last().0 == m);
                assert(wn.last() == room.last());
            }
        }
        if names_unique(room) {
            assert(names_unique(r2));
            if room.last().0 != name {
                assert forall|i: int, j: int| 0 <= i < j < wn.len() implies (#[trigger] wn[i]).0
                    != (#[trigger] wn[j]).0 by {
                    if j < wn2.len() {
                    } else {
                        assert(wn[j] == room.last());
                        assert(wn[i] == wn2[i]);
                        let p = choose|p: int| 0 <= p < r2.len() && r2[p] == wn2[i];
                        assert(room[p] == wn2[i]);
                        assert(room[p].0 != room[room.len() - 1].0);
                    }
                }
            }
        }
    }
}

/// A newly joined member is told nothing about its own join: every join
/// notice goes to a prior member's handle, never to the newcomer's, and
/// the roster handed to the newcomer lists exactly the prior members'
/// names, its own name never among them.
///
/// The one assumption is that the newcomer's handle is fresh — a handle
/// stands for an owned write half, which only one connection can hold.
pub proof fn lemma_join_no_self_notice(room: RoomV, name: Seq<char>, h: u64)
    requires
        !has_handle(room, h),
    ensures
        ({
            let out = apply_spec(room, EventV::Joined(name, h)).1;
            let prior = without_name(room, name);
            &&& out.len() == prior.len() + 1
            &&& (forall|k: int|
                0 <= k < prior.len() ==> #[trigger] out[k] == (prior[k].1, joined_text(name))
                    && out[k].0 != h)
            &&& out.last() == (h, roster_text(names_of(prior)))
            &&& !names_of(prior).contains(name)
        }),
{
    let out = apply_spec(room, EventV::Joined(name, h)).1;
    let prior = without_name(room, name);
    lemma_without_name_props(room, name);
    assert forall|k: int| 0 <= k < prior.len() implies #[trigger] out[k] == (
        prior[k].1,
        joined_text(name),
    ) && out[k].0 != h by {
        let j = choose|j: int| 0 <= j < room.len() && room[j] == prior[k];
        assert(prior[k].1 == h ==> has_handle(room, h));
    }
    if names_of(prior).contains(name) {
        let k = choose|k: int| 0 <= k < names_of(prior).len() && names_of(prior)[k] == name;
        assert(prior[k].0 == name);
    }
}

/// A departing member never receives its own leave notice: every
/// delivery caused by its departure carries the leave text and goes to
/// some remaining member's handle, which is never the departing one's.
pub proof fn lemma_left_no_self_notice(room: RoomV, name: Seq<char>, hd: u64)
    requires
        handles_unique(room),
        exists|i: int| 0 <= i < room.len() && room[i] == (name, hd),
    ensures
        ({
            let out = apply_spec(room, EventV::Left(name)).1;
            forall|k: int|
                0 <= k < out.len() ==> (#[trigger] out[k]).1 == left_text(name) && out[k].0 != hd
        }),
{
    let out = apply_spec(room, EventV::Left(name)).1;
    let rest = without_name(room, name);
    lemma_without_name_props(room, name);
    let i = choose|i: int| 0 <= i < room.len() && room[i] == (name, hd);
    assert forall|k: int| 0 <= k < out.len() implies (#[trigger] out[k]).1 == left_text(name)
        && out[k].0 != hd by {
        let j = choose|j: int| 0 <= j < room.len() && room[j] == rest[k];
        assert(room[j].0 != room[i].0);
    }
}

/// A sender never gets its own chat message echoed back: every delivery
/// caused by its message carries the chat text and goes to some other
/// member's handle.
pub proof fn lemma_message_no_self_echo(room: RoomV, name: Seq<char>, text: Seq<char>, hd: u64)
    requires
        handles_unique(room),
        exists|i: int| 0 <= i < room.len() && room[i] == (name, hd),
    ensures
        ({
            let out = apply_spec(room, EventV::Message(name, text)).1;
            forall|k: int|
                0 <= k < out.len() ==> (#[trigger] out[k]).1 == chat_text(name, text) && out[k].0
                    != hd
        }),
{
    let out = apply_spec(room, EventV::Message(name, text)).1;
    let rest = without_name(room, name);
    lemma_without_name_props(room, name);
    let i = choose|i: int| 0 <= i < room.len() && room[i] == (name, hd);
    assert(has_name(room, name));
    assert forall|k: int| 0 <= k < out.len() implies (#[trigger] out[k]).1 == chat_text(name, text)
        && out[k].0 != hd by {
        let j = choose|j: int| 0 <= j < room.len() && room[j] == rest[k];
        assert(room[j].0 != room[i].0);
    }
}

/// Uniqueness is an invariant: when no member is stored twice under a
/// name or a handle, and a join always brings a handle nobody holds,
/// the room after any one event is again free of duplicates.
pub proof fn lemma_apply_preserves_unique(room: RoomV, ev: EventV)
    requires
        names_unique(room),
        handles_unique(room),
        ev matches EventV::Joined(n, h) ==> !has_handle(room, h),
    ensures
        names_unique(apply_spec(room, ev).0),
        handles_unique(apply_spec(room, ev).0),
{
    let after = apply_spec(room, ev).0;
    match ev {
        EventV::Joined(n, h) => {
            let prior = without_name(room, n);
            lemma_without_name_props(room, n);
            lemma_without_name_handles(room, n);
            assert forall|i: int, j: int| 0 <= i < j < after.len() implies (#[trigger] after[i]).0
                != (#[trigger] after[j]).0 by {
                if j == after.len() - 1 {
                    assert(prior[i].0 != n);
                }
            }
            assert forall|i: int, j: int| 0 <= i < j < after.len() implies (#[trigger] after[i]).1
                != (#[trigger] after[j]).1 by {
                if j == after.len() - 1 {
                    let p = choose|p: int| 0 <= p < room.len() && room[p] == prior[i];
                    assert(prior[i].1 == h ==> has_handle(room, h));
                }
            }
        },
        EventV::Message(n, t) => {
        },
        EventV::Left(n) => {
            lemma_without_name_props(room, n);
            lemma_without_name_handles(room, n);
        },
    }
}

/// With unique names and handles, removing a name keeps handles unique.
proof fn lemma_without_name_handles(room: RoomV, name: Seq<char>)
    requires
        names_unique(room),
        handles_unique(room),
    ensures
        handles_unique(without_name(room, name)),
{
    let wn = without_name(room, name);
    lemma_without_name_props(room, name);
    assert forall|i: int, j: int| 0 <= i < j < wn.len() implies (#[trigger] wn[i]).1 != (
    #[trigger] wn[j]).1 by {
        let p = choose|p: int| 0 <= p < room.len() && room[p] == wn[i];
        let q = choose|q: int| 0 <= q < room.len() && room[q] == wn[j];
        assert(names_unique(wn));
        assert(wn[i].0 != wn[j].0);
        assert(p != q);
    }
}

/// The room that results from replaying `evs` against an empty room.
pub open spec fn run_events(evs: Seq<EventV>) -> RoomV
    decreases evs.len(),
{
    if evs.len() == 0 {
        Seq::empty()
    } else {
        apply_spec(run_events(evs.drop_last()), evs.last()).0
    }
}

/// Whether `evs` ends with `name` joined: a join for it occurred and no
/// departure of it came later.
pub open spec fn joined_and_stayed(evs: Seq<EventV>, name: Seq<char>) -> bool
    decreases evs.len(),
{
    if evs.len() == 0 {
        false
    } else {
        match evs.last() {
            EventV::Joined(n, h) => n == name || joined_and_stayed(evs.drop_last(), name),
            EventV::Message(n, t) => joined_and_stayed(evs.drop_last(), name),
            EventV::Left(n) => n != name && joined_and_stayed(evs.drop_last(), name),
        }
    }
}

/// After any sequence of events, however interleaved, the membership is
/// exactly the set of names that joined and have not since left, and no
/// name appears twice.
pub proof fn lemma_membership(evs: Seq<EventV>)
    ensures
        forall|name: Seq<char>|
            #[trigger] has_name(run_events(evs), name) <==> joined_and_stayed(evs, name),
        names_unique(run_events(evs)),
    decreases evs.len(),
{
    let room = run_events(evs);
    if evs.len() == 0 {
        assert(forall|name: Seq<char>| !(#[trigger] has_name(room, name)));
    } else {
        let prev = run_events(evs.drop_last());
        lemma_membership(evs.drop_last());
        match evs.last() {
            EventV::Joined(n, h) => {
                let prior = without_name(prev, n);
                lemma_without_name_props(prev, n);
                assert(room == prior.push((n, h)));
                assert forall|name: Seq<char>| #[trigger] has_name(room, name) implies (name == n
                    || has_name(prev, name)) by {
                    let k = choose|k: int| 0 <= k < room.len() && room[k].0 == name;
                    if k < prior.len() {
                        assert(has_name(prior, name));
                    }
                }
                assert forall|name: Seq<char>| (name == n || (name != n && has_name(
                    prev,
                    name,
                ))) implies #[trigger] has_name(room, name) by {
                    if name == n {
                        assert(room.last().0 == n);
                    } else {
                        assert(has_name(prior, name));
                        let k = choose|k: int| 0 <= k < prior.len() && prior[k].0 == name;
                        assert(room[k].0 == name);
                    }
                }
                assert forall|i: int, j: int| 0 <= i < j < room.len() implies (
                #[trigger] room[i]).0 != (#[trigger] room[j]).0 by {
                    if j < prior.len() {
                    } else {
                        assert(room[j] == (n, h));
                        assert(prior[i].0 != n);
                    }
                }
            },
            EventV::Message(n, t) => {
                assert(room == prev);
            },
            EventV::Left(n) => {
                lemma_without_name_props(prev, n);
                assert(room == without_name(prev, n));
                assert forall|i: int, j: int| 0 <= i < j < room.len() implies (
                #[trigger] room[i]).0 != (#[trigger] room[j]).0 by {
                    assert(names_unique(without_name(prev, n)));
                }
            },
        }
    }
}

} // verus!
