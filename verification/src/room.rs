//! The registry: the single owner of room membership. It consumes one
//! event at a time and turns it into the exact list of outbound
//! deliveries, so that all fan-out ordering rules are part of its
//! contract.
//!
//! Duplicate-name policy: when a join arrives for a name that is already
//! present, the prior holder is dropped from the room before the join is
//! announced, so the announcement and the roster reflect only the other
//! members. (The wire protocol leaves this case open; this is the
//! policy this crate settles on.)

use vstd::prelude::*;
use crate::text::{chat_text, joined_text, left_text, roster_text};
use crate::text::{chat_line, joined_line, left_line, roster_line};

verus! {

/// One joined client: its display name and the identifier of its
/// outbound delivery handle. The surrounding process maps identifiers to
/// real transport write halves; inside the library a handle is opaque.
pub struct Member {
    pub name: String,
    pub handle: u64,
}

impl View for Member {
    type V = (Seq<char>, u64);

    open spec fn view(&self) -> (Seq<char>, u64) {
        (self.name@, self.handle)
    }
}

impl DeepView for Member {
    type V = (Seq<char>, u64);

    open spec fn deep_view(&self) -> (Seq<char>, u64) {
        self.view()
    }
}

/// One membership or message occurrence, the unit of communication from
/// a connection session to the registry.
pub enum Event {
    /// A client completed the handshake: its name and its handle id.
    Joined(String, u64),
    /// A joined client sent one line of chat text.
    Message(String, String),
    /// A joined client's connection ended.
    Left(String),
}

/// The spec-level image of an `Event`.
pub enum EventV {
    Joined(Seq<char>, u64),
    Message(Seq<char>, Seq<char>),
    Left(Seq<char>),
}

impl View for Event {
    type V = EventV;

    open spec fn view(&self) -> EventV {
        match self {
            Event::Joined(n, h) => EventV::Joined(n@, *h),
            Event::Message(n, t) => EventV::Message(n@, t@),
            Event::Left(n) => EventV::Left(n@),
        }
    }
}

/// One outbound line: the handle to deliver to, and the exact text.
pub struct Delivery {
    pub to: u64,
    pub text: String,
}

impl View for Delivery {
    type V = (u64, Seq<char>);

    open spec fn view(&self) -> (u64, Seq<char>) {
        (self.to, self.text@)
    }
}

impl DeepView for Delivery {
    type V = (u64, Seq<char>);

    open spec fn deep_view(&self) -> (u64, Seq<char>) {
        self.view()
    }
}

/// The mathematical image of the room: members in join order.
pub type RoomV = Seq<(Seq<char>, u64)>;

/// The names of `room`'s members, in join order.
pub open spec fn names_of(room: RoomV) -> Seq<Seq<char>> {
    room.map_values(|m: (Seq<char>, u64)| m.0)
}

/// Whether some member of `room` is called `name`.
pub open spec fn has_name(room: RoomV, name: Seq<char>) -> bool {
    exists|i: int| 0 <= i < room.len() && room[i].0 == name
}

/// Whether some member of `room` delivers through `h`.
pub open spec fn has_handle(room: RoomV, h: u64) -> bool {
    exists|i: int| 0 <= i < room.len() && room[i].1 == h
}

/// `room` with every member called `name` removed, order kept.
pub open spec fn without_name(room: RoomV, name: Seq<char>) -> RoomV
    decreases room.len(),
{
    if room.len() == 0 {
        Seq::empty()
    } else {
        let rest = without_name(room.drop_last(), name);
        if room.last().0 == name {
            rest
        } else {
            rest.push(room.last())
        }
    }
}

/// The same `text` addressed to every member of `room`, in room order.
pub open spec fn fan_out(room: RoomV, text: Seq<char>) -> Seq<(u64, Seq<char>)> {
    room.map_values(|m: (Seq<char>, u64)| (m.1, text))
}

/// How `without_name` grows when one more member is considered.
proof fn lemma_without_name_step(room: RoomV, i: int, name: Seq<char>)
    requires
        0 <= i < room.len(),
    ensures
        room[i].0 != name ==> without_name(room.subrange(0, i + 1), name) == without_name(
            room.subrange(0, i),
            name,
        ).push(room[i]),
        room[i].0 == name ==> without_name(room.subrange(0, i + 1), name) == without_name(
            room.subrange(0, i),
            name,
        ),
{
    let s1 = room.subrange(0, i + 1);
    assert(s1.drop_last() =~= room.subrange(0, i));
    assert(s1.last() == room[i]);
}

/// What one event does: the room afterwards, and the deliveries it
/// causes, in the order they are handed to the transport.
///
/// - A join first announces the name to the prior members, then hands
///   the newcomer the roster of those members, and only then registers
///   the newcomer.
/// - A message goes to every member but the sender; a message whose
///   sender is not a member causes nothing.
/// - A leave removes the member first and then tells the remaining ones.
pub open spec fn apply_spec(room: RoomV, ev: EventV) -> (RoomV, Seq<(u64, Seq<char>)>) {
    match ev {
        EventV::Joined(name, h) => {
            let prior = without_name(room, name);
            (
                prior.push((name, h)),
                fan_out(prior, joined_text(name)).push((h, roster_text(names_of(prior)))),
            )
        },
        EventV::Message(name, text) => {
            if has_name(room, name) {
                (room, fan_out(without_name(room, name), chat_text(name, text)))
            } else {
                (room, Seq::empty())
            }
        },
        EventV::Left(name) => {
            let rest = without_name(room, name);
            (rest, fan_out(rest, left_text(name)))
        },
    }
}

/// The room: the single point of truth for membership. It starts empty
/// and changes only through `apply_event`.
pub struct Room {
    members: Vec<Member>,
}

impl View for Room {
    type V = RoomV;

    closed spec fn view(&self) -> RoomV {
        self.members.deep_view()
    }
}

impl Room {
    /// The empty room.
    pub fn new() -> (r: Room)
        ensures
            r@ == Seq::<(Seq<char>, u64)>::empty(),
    {
        Room { members: Vec::new() }
    }

    /// Whether some member is called `name`.
    pub fn contains_name(&self, name: &String) -> (r: bool)
        ensures
            r == has_name(self@, name@),
    {
        for i in 0..self.members.len()
            invariant
                forall|j: int| 0 <= j < i ==> (#[trigger] self@[j]).0 != name@,
        {
            if self.members[i].name == *name {
                assert(self@[i as int].0 == name@);
                return true;
            }
        }
        false
    }

    /// Whether some member delivers through `h`.
    pub fn contains_handle(&self, h: u64) -> (r: bool)
        ensures
            r == has_handle(self@, h),
    {
        for i in 0..self.members.len()
            invariant
                forall|j: int| 0 <= j < i ==> (#[trigger] self@[j]).1 != h,
        {
            if self.members[i].handle == h {
                assert(self@[i as int].1 == h);
                return true;
            }
        }
        false
    }

    /// The delivery handle of the member called `name`, if any.
    pub fn handle_of(&self, name: &String) -> (r: Option<u64>)
        ensures
            match r {
                Option::Some(h) => exists|i: int|
                    0 <= i < self@.len() && self@[i] == (name@, h),
                Option::None => !has_name(self@, name@),
            },
    {
        for i in 0..self.members.len()
            invariant
                forall|j: int| 0 <= j < i ==> (#[trigger] self@[j]).0 != name@,
        {
            if self.members[i].name == *name {
                assert(self@[i as int] == (name@, self.members@[i as int].handle));
                return Some(self.members[i].handle);
            }
        }
        None
    }

    /// Applies one event to the room and returns the deliveries it
    /// causes, exactly as `apply_spec` says.
    pub fn apply_event(&mut self, e: Event) -> (out: Vec<Delivery>)
        ensures
            final(self)@ == apply_spec(old(self)@, e@).0,
            out.deep_view() == apply_spec(old(self)@, e@).1,
    {
        let ghost ev = e@;
        let ghost room0 = self@;
        match e {
            Event::Joined(name, h) => {
                let (kept, mut outs, prior_names) = self.part_by_name(&name, true);
                let roster = roster_line(&prior_names);
                outs.push(Delivery { to: h, text: roster });
                let mut members = kept;
                members.push(Member { name, handle: h });
                self.members = members;
                proof {
                    assert(self@ =~= apply_spec(room0, ev).0);
                    assert(outs.deep_view() =~= apply_spec(room0, ev).1);
                }
                outs
            },
            Event::Message(name, text) => {
                let mut outs: Vec<Delivery> = Vec::new();
                if self.contains_name(&name) {
                    let n = self.members.len();
                    for i in 0..n
                        invariant
                            self@ == room0,
                            n == self.members.len(),
                            outs.deep_view() =~= fan_out(
                                without_name(room0.subrange(0, i as int), name@),
                                chat_text(name@, text@),
                            ),
                    {
                        let ghost pre0 = without_name(room0.subrange(0, i as int), name@);
                        let ghost outs0 = outs.deep_view();
                        proof {
                            lemma_without_name_step(room0, i as int, name@);
                        }
                        if !(self.members[i].name == name) {
                            let line = chat_line(name.as_str(), text.as_str());
                            outs.push(Delivery { to: self.members[i].handle, text: line });
                            proof {
                                let m = room0[i as int];
                                assert(outs.deep_view() =~= outs0.push(
                                    (m.1, chat_text(name@, text@)),
                                ));
                                assert(fan_out(pre0.push(m), chat_text(name@, text@)) =~= fan_out(
                                    pre0,
                                    chat_text(name@, text@),
                                ).push((m.1, chat_text(name@, text@))));
                            }
                        }
                        proof {
                            assert(outs.deep_view() =~= fan_out(
                                without_name(room0.subrange(0, i + 1), name@),
                                chat_text(name@, text@),
                            ));
                        }
                    }
                    proof {
                        assert(room0.subrange(0, n as int) =~= room0);
                    }
                }
                proof {
                    assert(outs.deep_view() =~= apply_spec(room0, ev).1);
                }
                outs
            },
            Event::Left(name) => {
                let (kept, outs, _prior_names) = self.part_by_name(&name, false);
                self.members = kept;
                proof {
                    assert(self@ =~= apply_spec(room0, ev).0);
                    assert(outs.deep_view() =~= apply_spec(room0, ev).1);
                }
                outs
            },
        }
    }

    /// Walks the members once, in order: keeps everyone not called
    /// `name`, collects their names, and addresses one notice to each —
    /// the join notice for `name` when `joining` is true, else the leave
    /// notice.
    fn part_by_name(&self, name: &String, joining: bool) -> (r: (
        Vec<Member>,
        Vec<Delivery>,
        Vec<String>,
    ))
        ensures
            r.0.deep_view() == without_name(self@, name@),
            r.1.deep_view() == fan_out(
                without_name(self@, name@),
                if joining {
                    joined_text(name@)
                } else {
                    left_text(name@)
                },
            ),
            r.2.deep_view() == names_of(without_name(self@, name@)),
    {
        let mut kept: Vec<Member> = Vec::new();
        let mut outs: Vec<Delivery> = Vec::new();
        let mut kept_names: Vec<String> = Vec::new();
        let n = self.members.len();
        let ghost room0 = self@;
        let ghost txt = if joining {
            joined_text(name@)
        } else {
            left_text(name@)
        };
        for i in 0..n
            invariant
                self@ == room0,
                n == self.members.len(),
                kept.deep_view() =~= without_name(room0.subrange(0, i as int), name@),
                outs.deep_view() =~= fan_out(without_name(room0.subrange(0, i as int), name@), txt),
                kept_names.deep_view() =~= names_of(
                    without_name(room0.subrange(0, i as int), name@),
                ),
                txt == if joining {
                    joined_text(name@)
                } else {
                    left_text(name@)
                },
        {
            let ghost pre0 = without_name(room0.subrange(0, i as int), name@);
            let ghost outs0 = outs.deep_view();
            let ghost kept0 = kept.deep_view();
            let ghost names0 = kept_names.deep_view();
            proof {
                lemma_without_name_step(room0, i as int, name@);
            }
            if !(self.members[i].name == *name) {
                let line = if joining {
                    joined_line(name.as_str())
                } else {
                    left_line(name.as_str())
                };
                outs.push(Delivery { to: self.members[i].handle, text: line });
                kept_names.push(self.members[i].name.clone());
                let nm = self.members[i].name.clone();
                kept.push(Member { name: nm, handle: self.members[i].handle });
                proof {
                    let m = room0[i as int];
                    assert(kept.deep_view() =~= kept0.push(m));
                    assert(pre0.push(m) =~= kept0.push(m));
                    assert(outs.deep_view() =~= outs0.push((m.1, txt)));
                    assert(fan_out(pre0.push(m), txt) =~= fan_out(pre0, txt).push((m.1, txt)));
                    assert(kept_names.deep_view() =~= names0.push(m.0));
                    assert(names_of(pre0.push(m)) =~= names_of(pre0).push(m.0));
                }
            }
            proof {
                let pre1 = without_name(room0.subrange(0, i + 1), name@);
                assert(kept.deep_view() =~= pre1);
                assert(outs.deep_view() =~= fan_out(pre1, txt));
                assert(kept_names.deep_view() =~= names_of(pre1));
            }
        }
        proof {
            assert(room0.subrange(0, n as int) =~= room0);
        }
        (kept, outs, kept_names)
    }
}

} // verus!
