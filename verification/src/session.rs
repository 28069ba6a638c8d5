//! The per-connection session protocol: greet, read one name line,
//! validate it, then turn every further line into a chat event and the
//! end of the stream into a departure. The session never performs I/O
//! itself; the driver feeds it lines and carries out the action it
//! returns.

use vstd::prelude::*;
use crate::room::{Event, EventV};
use crate::text::{invalid_line, invalid_text};
use crate::validate::{valid_name, validate_name};

verus! {

/// Where one connection stands in its lifecycle.
pub enum SessionState {
    /// Greeted; waiting for the name line.
    AwaitingName,
    /// Joined under this name; chat lines flow.
    Joined(String),
    /// Finished; this session will never emit another event.
    Closed,
}

/// What the driver must do after handing the session a line.
pub enum SessionAction {
    /// Send this text to the client, then drop the connection.
    Reject(String),
    /// Hand this event to the registry.
    Emit(Event),
    /// Nothing: drop the connection without a word.
    Close,
}

/// One client's protocol state, tied to its delivery handle.
pub struct Session {
    pub handle: u64,
    pub state: SessionState,
}

impl Session {
    /// A fresh session for a connection whose deliveries go to `handle`.
    /// The driver sends the greeting prompt right after creating it.
    pub fn new(handle: u64) -> (s: Session)
        ensures
            s.handle == handle,
            s.state is AwaitingName,
    {
        Session { handle, state: SessionState::AwaitingName }
    }

    /// Feeds the next line (`None` at end of stream) to the session.
    ///
    /// - Before a name arrived: end of stream closes silently — no event
    ///   is ever emitted for this client. An unacceptable name draws the
    ///   rejection text and closes, again with no event. An acceptable
    ///   name emits the join event, carrying this session's handle.
    /// - Once joined: every line is emitted as a chat message, in order;
    ///   end of stream emits exactly one departure and closes.
    /// - A closed session emits nothing, whatever arrives.
    pub fn on_line(&mut self, line: Option<String>) -> (act: SessionAction)
        ensures
            final(self).handle == old(self).handle,
            match old(self).state {
                SessionState::AwaitingName => {
                    match line {
                        Option::None => final(self).state is Closed && act is Close,
                        Option::Some(name) => {
                            if valid_name(name@) {
                                &&& final(self).state matches SessionState::Joined(n) && n@
                                    == name@
                                &&& act matches SessionAction::Emit(e) && e@ == EventV::Joined(
                                    name@,
                                    old(self).handle,
                                )
                            } else {
                                &&& final(self).state is Closed
                                &&& act matches SessionAction::Reject(t) && t@ == invalid_text()
                            }
                        },
                    }
                },
                SessionState::Joined(name) => {
                    match line {
                        Option::Some(text) => {
                            &&& final(self).state matches SessionState::Joined(n) && n@ == name@
                            &&& act matches SessionAction::Emit(e) && e@ == EventV::Message(
                                name@,
                                text@,
                            )
                        },
                        Option::None => {
                            &&& final(self).state is Closed
                            &&& act matches SessionAction::Emit(e) && e@ == EventV::Left(name@)
                        },
                    }
                },
                SessionState::Closed => final(self).state is Closed && act is Close,
            },
    {
        match &self.state {
            SessionState::AwaitingName => {
                match line {
                    Option::None => {
                        self.state = SessionState::Closed;
                        SessionAction::Close
                    },
                    Option::Some(name) => {
                        if validate_name(name.as_str()) {
                            let ev = Event::Joined(name.clone(), self.handle);
                            self.state = SessionState::Joined(name);
                            SessionAction::Emit(ev)
                        } else {
                            self.state = SessionState::Closed;
                            SessionAction::Reject(invalid_line())
                        }
                    },
                }
            },
            SessionState::Joined(name) => {
                match line {
                    Option::Some(text) => {
                        SessionAction::Emit(Event::Message(name.clone(), text))
                    },
                    Option::None => {
                        let n = name.clone();
                        self.state = SessionState::Closed;
                        SessionAction::Emit(Event::Left(n))
                    },
                }
            },
            SessionState::Closed => SessionAction::Close,
        }
    }
}

} // verus!
