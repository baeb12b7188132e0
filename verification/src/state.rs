//! Interface-side state: the screen the user is on, what a send request
//! composes, and the conversation records the interface renders.

use vstd::prelude::*;

use crate::messages::{SendMessage, SendMessageView};

verus! {

/// Mathematical value of one rendered chat line.
#[verifier::ext_equal]
pub struct MessageLineView {
    pub message: Seq<char>,
    pub from_self: bool,
}

/// One rendered chat line: its text, and whether the local user wrote it.
#[derive(Debug)]
pub struct MessageLine {
    pub message: String,
    pub from_self: bool,
}

impl View for MessageLine {
    type V = MessageLineView;

    open spec fn view(&self) -> MessageLineView {
        MessageLineView { message: self.message@, from_self: self.from_self }
    }
}

/// The screen the user is on: the login form, or the main screen with a
/// selected conversation, the add-person box, and the message box.
pub enum State {
    Login(String, String),
    Main { selected_id: Option<u64>, add_person: String, message: String },
}

impl State {
    /// The main screen as it first appears: no conversation selected, both
    /// input boxes empty.
    pub fn default_main() -> (s: Self)
        ensures
            s matches State::Main { selected_id, add_person, message } && selected_id is None
                && add_person@ == Seq::<char>::empty() && message@ == Seq::<char>::empty(),
    {
        Self::Main { selected_id: None, add_person: String::new(), message: String::new() }
    }

    /// What a send request composes: the message box's text, addressed to
    /// the selected conversation. Nothing to send while no conversation is
    /// selected or the user is still logging in.
    pub fn compose_outbound(&self) -> (r: Option<SendMessage>)
        ensures
            match self {
                State::Main { selected_id: Some(id), message, .. } => r matches Some(m) && m@
                    == (SendMessageView::Message { message: message@, reciever: *id }),
                _ => r is None,
            },
    {
        match self {
            State::Main { selected_id: Some(id), message, .. } => Some(
                SendMessage::Message { message: message.clone(), reciever: *id },
            ),
            _ => None,
        }
    }
}

/// Every chat line ever recorded, in arrival order, each under the peer it
/// belongs with. The lines of one conversation are the entries with that
/// peer, in order.
pub struct ChatLog {
    entries: Vec<(u64, MessageLine)>,
}

impl View for ChatLog {
    type V = Seq<(u64, MessageLineView)>;

    closed spec fn view(&self) -> Seq<(u64, MessageLineView)> {
        self.entries@.map_values(|e: (u64, MessageLine)| (e.0, e.1@))
    }
}

impl ChatLog {
    pub fn new() -> (r: Self)
        ensures
            r@ == Seq::<(u64, MessageLineView)>::empty(),
    {
        let r = ChatLog { entries: Vec::new() };
        proof {
            assert(r@ =~= Seq::<(u64, MessageLineView)>::empty());
        }
        r
    }

    /// Record one line under a peer, at the end.
    pub fn record(&mut self, peer: u64, message: String, from_self: bool)
        ensures
            final(self)@ == old(self)@.push(
                (peer, MessageLineView { message: message@, from_self }),
            ),
    {
        let ghost target = self@.push((peer, MessageLineView { message: message@, from_self }));
        self.entries.push((peer, MessageLine { message, from_self }));
        proof {
            assert(self@ =~= target);
        }
    }

    pub fn len(&self) -> (r: usize)
        ensures
            r == self@.len(),
    {
        self.entries.len()
    }

    /// The peer and line at one position of the record.
    pub fn line(&self, i: usize) -> (r: (u64, &MessageLine))
        requires
            i < self@.len(),
        ensures
            self@[i as int] == (r.0, r.1@),
    {
        let e = &self.entries[i];
        (e.0, &e.1)
    }
}

/// The name that a log of directory inserts leaves a peer with: the latest
/// insert wins, as it would in a keyed map.
pub open spec fn spec_name_of(entries: Seq<(u64, Seq<char>)>, peer: u64) -> Option<Seq<char>>
    decreases entries.len(),
{
    if entries.len() == 0 {
        None
    } else if entries.last().0 == peer {
        Some(entries.last().1)
    } else {
        spec_name_of(entries.drop_last(), peer)
    }
}

/// The people the user chats with: every name learned for a peer, in the
/// order learned. A peer's current name is the one learned last.
pub struct Directory {
    entries: Vec<(u64, String)>,
}

impl View for Directory {
    type V = Seq<(u64, Seq<char>)>;

    closed spec fn view(&self) -> Seq<(u64, Seq<char>)> {
        self.entries@.map_values(|e: (u64, String)| (e.0, e.1@))
    }
}

impl Directory {
    pub fn new() -> (r: Self)
        ensures
            r@ == Seq::<(u64, Seq<char>)>::empty(),
    {
        let r = Directory { entries: Vec::new() };
        proof {
            assert(r@ =~= Seq::<(u64, Seq<char>)>::empty());
        }
        r
    }

    /// Learn a peer's name; a later insert for the same peer supersedes an
    /// earlier one.
    pub fn insert(&mut self, peer: u64, name: String)
        ensures
            final(self)@ == old(self)@.push((peer, name@)),
            spec_name_of(final(self)@, peer) == Some(name@),
    {
        let ghost target = self@.push((peer, name@));
        self.entries.push((peer, name));
        proof {
            assert(self@ =~= target);
            assert(self@.drop_last() =~= old(self)@);
        }
    }

    /// The peer's current name, if any is known.
    pub fn get_name(&self, peer: u64) -> (r: Option<&String>)
        ensures
            match r {
                Some(name) => spec_name_of(self@, peer) == Some(name@),
                None => spec_name_of(self@, peer) is None,
            },
    {
        let mut best: Option<&String> = None;
        let mut i: usize = 0;
        proof {
            assert(self@.subrange(0, 0) =~= Seq::<(u64, Seq<char>)>::empty());
        }
        while i < self.entries.len()
            invariant
                i <= self.entries.len(),
                self@.len() == self.entries.len(),
                forall|t: int|
                    0 <= t < self@.len() ==> self@[t] == (
                        self.entries@[t].0,
                        self.entries@[t].1@,
                    ),
                match best {
                    Some(name) => spec_name_of(self@.subrange(0, i as int), peer) == Some(
                        name@,
                    ),
                    None => spec_name_of(self@.subrange(0, i as int), peer) is None,
                },
            decreases self.entries.len() - i,
        {
            proof {
                assert(self@.subrange(0, i + 1 as int).drop_last() =~= self@.subrange(
                    0,
                    i as int,
                ));
                assert(self@.subrange(0, i + 1 as int).last() == self@[i as int]);
            }
            if self.entries[i].0 == peer {
                best = Some(&self.entries[i].1);
            }
            i = i + 1;
        }
        proof {
            assert(self@.subrange(0, self@.len() as int) =~= self@);
        }
        best
    }

    /// Whether any name is known for the peer.
    pub fn contains(&self, peer: u64) -> (r: bool)
        ensures
            r == (spec_name_of(self@, peer) is Some),
    {
        match self.get_name(peer) {
            Some(_) => true,
            None => false,
        }
    }

    pub fn len(&self) -> (r: usize)
        ensures
            r == self@.len(),
    {
        self.entries.len()
    }

    /// The peer and name at one position of the insert log.
    pub fn entry(&self, i: usize) -> (r: (u64, &String))
        requires
            i < self@.len(),
        ensures
            self@[i as int] == (r.0, r.1@),
    {
        let e = &self.entries[i];
        (e.0, &e.1)
    }
}

} // verus!
