//! The bounded message log shown under the map.

use vstd::prelude::*;
use crate::object::Color;

verus! {

/// How many messages the log keeps.
pub const MSG_HEIGHT: usize = 6;

pub struct MessageLog {
    pub messages: Vec<(String, Color)>,
}

/// The log after adding `m`: when it already holds `MSG_HEIGHT` messages the
/// oldest one is dropped first.
pub open spec fn log_add(l: Seq<(Seq<char>, Color)>, m: (Seq<char>, Color)) -> Seq<(Seq<char>, Color)> {
    if l.len() == MSG_HEIGHT {
        l.drop_first().push(m)
    } else {
        l.push(m)
    }
}

impl View for MessageLog {
    type V = Seq<(Seq<char>, Color)>;

    open spec fn view(&self) -> Seq<(Seq<char>, Color)> {
        self.messages@.map_values(|m: (String, Color)| (m.0@, m.1))
    }
}

impl MessageLog {
    pub fn new() -> (r: MessageLog)
        ensures
            r@ == Seq::<(Seq<char>, Color)>::empty(),
    {
        let r = MessageLog { messages: Vec::new() };
        assert(r@ =~= Seq::<(Seq<char>, Color)>::empty());
        r
    }

    pub fn add(&mut self, message: String, color: Color)
        ensures
            final(self)@ == log_add(old(self)@, (message@, color)),
    {
        let ghost m = (message@, color);
        if self.messages.len() == MSG_HEIGHT {
            self.messages.remove(0);
        }
        self.messages.push((message, color));
        assert(self@ =~= log_add(old(self)@, m));
    }

    pub fn messages(&self) -> (r: &Vec<(String, Color)>)
        ensures
            r == &self.messages,
    {
        &self.messages
    }
}

} // verus!
