//! Channels and the messages sent in them.

use crate::edges::Key;
use crate::ID;
use vstd::prelude::*;

verus! {

/// Largest size of a message's text, in bytes of UTF-8.
pub const MESSAGE_MAX_SIZE: usize = 4096;

/// The place of a channel: its hub and its own identifier.
#[derive(Clone, Copy, PartialEq, Eq, Structural, Debug, Hash)]
pub struct ChannelKey {
    pub hub_id: ID,
    pub channel_id: ID,
}

impl Key for ChannelKey {
    fn same(&self, other: &Self) -> (r: bool) {
        self.hub_id == other.hub_id && self.channel_id == other.channel_id
    }
}

/// A named message stream within a hub.
#[derive(Clone, Debug, PartialEq, Eq)]
pub struct Channel {
    pub id: ID,
    pub hub_id: ID,
    pub name: String,
    pub description: String,
    /// Milliseconds since the Unix epoch at which the channel was created.
    pub created: u128,
}

/// One message of a channel.
#[derive(Clone, Debug, PartialEq, Eq)]
pub struct Message {
    pub id: ID,
    pub sender: ID,
    /// Milliseconds since the Unix epoch at which the message was accepted.
    pub created: u128,
    pub content: String,
}

/// Number of bytes that `text` takes as UTF-8.
pub open spec fn text_size(text: Seq<char>) -> nat {
    vstd::utf8::encode_utf8(text).len()
}

/// Whether a text is short enough to be sent as a message.
pub open spec fn text_fits(text: Seq<char>) -> bool {
    text_size(text) <= MESSAGE_MAX_SIZE
}

/// Checks that a text is short enough to be sent as a message.
pub fn check_text_size(text: &str) -> (fits: bool)
    ensures
        fits == text_fits(text@),
{
    text.as_bytes().len() <= MESSAGE_MAX_SIZE
}

/// Whether the message at `at` is the first of `all` with the identifier
/// `id`.
pub open spec fn first_with_id(all: Seq<Message>, at: int, id: ID) -> bool {
    &&& 0 <= at < all.len()
    &&& all[at].id == id
    &&& forall|i: int| 0 <= i < at ==> (#[trigger] all[i]).id != id
}

/// Whether a message of `all` has the identifier `id`.
pub open spec fn has_id(all: Seq<Message>, id: ID) -> bool {
    exists|i: int| 0 <= i < all.len() && (#[trigger] all[i]).id == id
}

/// Whether `rest` are the messages of `all` that come after the one with
/// the identifier `after`: those behind the first message with that
/// identifier, or all of them where no message has it.
pub open spec fn rest_after(all: Seq<Message>, after: ID, rest: Seq<Message>) -> bool {
    &&& !has_id(all, after) ==> rest == all
    &&& forall|at: int| #[trigger]
        first_with_id(all, at, after) ==> rest == all.subrange(at + 1, all.len() as int)
}

/// The messages of a channel that come after the one with the identifier
/// `after`, in their order: those behind the first message with that
/// identifier, or all of them where no message has it. `all` are the
/// messages of the channel in the order in which they were accepted.
pub fn messages_after(all: &Vec<Message>, after: ID) -> (rest: Vec<Message>)
    ensures
        rest_after(all@, after, rest@),
{
    let mut start: usize = 0;
    let mut found = false;
    while start < all.len() && !found
        invariant
            0 <= start <= all.len(),
            found ==> start > 0 && first_with_id(all@, start - 1, after),
            !found ==> forall|i: int| 0 <= i < start ==> (#[trigger] all@[i]).id != after,
        decreases all.len() - start + (if found { 0int } else { 1int }),
    {
        found = all[start].id == after;
        start = start + 1;
    }
    if !found {
        start = 0;
    }
    let mut rest: Vec<Message> = Vec::new();
    let mut i: usize = start;
    while i < all.len()
        invariant
            start <= i <= all.len(),
            rest@ == all@.subrange(start as int, i as int),
        decreases all.len() - i,
    {
        let message = &all[i];
        rest.push(
            Message {
                id: message.id,
                sender: message.sender,
                created: message.created,
                content: message.content.clone(),
            },
        );
        proof {
            assert(rest@ == all@.subrange(start as int, i + 1));
        }
        i = i + 1;
    }
    proof {
        if found {
            assert forall|at: int| #[trigger] first_with_id(all@, at, after) implies at == start
                - 1 by {
                if at < start - 1 {
                    assert(all@[at].id != after);
                } else if at > start - 1 {
                    assert(all@[start - 1].id == after);
                }
            }
        } else {
            assert(all@.subrange(0, all@.len() as int) == all@);
        }
    }
    rest
}

} // verus!
