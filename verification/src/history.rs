//! Places in a conversation, and how parts of it are removed.
use crate::ids::MessageId;
use crate::model::Message;
use vstd::prelude::*;

verus! {

/// How a conversation is cut.
#[derive(Clone, Copy, Debug, PartialEq, Eq, Structural)]
pub enum HistoryEdit {
    /// The messages from the first to the second are removed.
    RemoveAll(MessageId, MessageId),
    /// All messages after this one are removed.
    TruncateAfter(MessageId),
}

/// The place of a message among others; their number where it is not there.
pub open spec fn place_of(list: Seq<MessageId>, id: MessageId) -> int
    decreases list.len(),
{
    if list.len() == 0 || list[0] == id {
        0
    } else {
        1 + place_of(list.drop_first(), id)
    }
}

/// The identifiers of messages.
pub open spec fn id_views(messages: Seq<Message>) -> Seq<MessageId> {
    messages.map_values(|m: Message| m.id)
}

/// The place of a message among others; their number where it is not there.
pub fn position(list: &[MessageId], id: MessageId) -> (r: usize)
    ensures
        r == place_of(list@, id),
        r <= list@.len(),
        r < list@.len() ==> list@[r as int] == id,
        r == list@.len() ==> !list@.contains(id),
{
    let mut i: usize = 0;
    proof {
        assert(list@.skip(0) =~= list@);
    }
    while i < list.len()
        invariant
            i <= list@.len(),
            place_of(list@, id) == i + place_of(list@.skip(i as int), id),
            forall|j: int| 0 <= j < i ==> list@[j] != id,
        decreases list@.len() - i,
    {
        proof {
            assert(list@.skip(i as int)[0] == list@[i as int]);
            assert(list@.skip(i as int).drop_first() =~= list@.skip(i + 1));
        }
        if list[i] == id {
            return i;
        }
        i += 1;
    }
    i
}

/// The identifiers of messages.
pub fn ids_of(messages: &[Message]) -> (r: Vec<MessageId>)
    ensures
        r@ == id_views(messages@),
{
    let mut out: Vec<MessageId> = Vec::new();
    let mut i: usize = 0;
    while i < messages.len()
        invariant
            i <= messages@.len(),
            out@ == id_views(messages@).take(i as int),
        decreases messages@.len() - i,
    {
        out.push(messages[i].id);
        proof {
            assert(id_views(messages@).take(i + 1) =~= id_views(messages@).take(i as int).push(
                messages@[i as int].id,
            ));
        }
        i += 1;
    }
    proof {
        assert(id_views(messages@).take(i as int) =~= id_views(messages@));
    }
    out
}

/// A message is found at the place where it first stands; one that is not there is at
/// none.
pub proof fn law_messages_are_found(before: Seq<MessageId>, id: MessageId, after: Seq<MessageId>)
    requires
        !before.contains(id),
    ensures
        place_of(before.push(id) + after, id) == before.len(),
        place_of(before, id) == before.len(),
    decreases before.len(),
{
    let all = before.push(id) + after;
    if before.len() == 0 {
        assert(all[0] == id);
    } else {
        let rest = before.drop_first();
        assert(before.contains(before[0]));
        assert(!rest.contains(id)) by {
            if rest.contains(id) {
                let k = rest.index_of(id);
                assert(before[k + 1] == id);
            }
        }
        law_messages_are_found(rest, id, after);
        assert(all.drop_first() =~= rest.push(id) + after);
        assert(all[0] == before[0]);
    }
}

} // verus!
