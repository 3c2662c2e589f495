//! Transient notifications (toasts) shown outside the conversation view.
//!
//! A toast carries a severity kind and, for the system kinds, a fixed
//! auto-dismiss time: five seconds for success and info, eight for
//! warnings, ten for errors.  An incoming-chat toast has no timeout — it
//! persists until acted on or replaced — and is the only kind that opens
//! the conversation dialog when clicked.

use vstd::prelude::*;

verus! {

/// The severity kind of a toast.
#[derive(Clone, Copy, PartialEq, Eq, Structural, Debug)]
pub enum MessageItemType {
    Dark,
    Primary,
    Link,
    Info,
    Success,
    Warning,
    Danger,
}

/// One toast: what it says, where it came from, and how it is shown.
///
/// For an incoming chat message, `room` is the room name and `from` /
/// `from_id` name the sender; for locally generated system notices,
/// `room` carries the headline and the sender fields are empty.
pub struct MessageItemValue {
    pub id: u128,
    pub from_id: Option<String>,
    pub from: Option<String>,
    pub content: String,
    pub room: String,
    pub kind: MessageItemType,
    pub timeout: Option<u32>,
}

/// Relies on `uuid::Uuid::new_v4` and `Uuid::as_u128`: a randomly
/// generated identifier; nothing can be promised of its value.
#[verifier::external_body]
fn fresh_id() -> u128 {
    uuid::Uuid::new_v4().as_u128()
}

impl MessageItemValue {
    /// Builds a toast with a freshly drawn id.
    pub fn new(
        kind: MessageItemType,
        room: &str,
        content: &str,
        timeout: Option<u32>,
        from: Option<&str>,
        from_id: Option<&str>,
    ) -> (r: MessageItemValue)
        ensures
            r.kind == kind,
            r.room@ == room@,
            r.content@ == content@,
            r.timeout == timeout,
            match (r.from, from) {
                (Some(a), Some(b)) => a@ == b@,
                (None, None) => true,
                _ => false,
            },
            match (r.from_id, from_id) {
                (Some(a), Some(b)) => a@ == b@,
                (None, None) => true,
                _ => false,
            },
    {
        MessageItemValue {
            id: fresh_id(),
            from_id: match from_id {
                Some(s) => Some(s.to_owned()),
                None => None,
            },
            from: match from {
                Some(s) => Some(s.to_owned()),
                None => None,
            },
            content: content.to_owned(),
            room: room.to_owned(),
            kind: kind,
            timeout: timeout,
        }
    }
}

/// The list of toasts currently on screen, oldest first.
pub type MessageListValue = Vec<MessageItemValue>;

/// Appends a toast to the board.
pub fn push(list: &mut MessageListValue, item: MessageItemValue)
    ensures
        final(list)@ == old(list)@.push(item),
{
    list.push(item);
}

/// Dismisses the first toast carrying the given id, handing it back;
/// leaves the board unchanged when no toast carries the id.
pub fn remove(list: &mut MessageListValue, id: u128) -> (r: Option<MessageItemValue>)
    ensures
        match r {
            Some(item) => exists|i: int|
                0 <= i < old(list)@.len() && (#[trigger] old(list)@[i]).id == id && item == old(
                    list,
                )@[i] && final(list)@ == old(list)@.remove(i) && (forall|t: int|
                    0 <= t < i ==> old(list)@[t].id != id),
            None => final(list)@ == old(list)@ && (forall|t: int|
                0 <= t < old(list)@.len() ==> (#[trigger] old(list)@[t]).id != id),
        },
{
    let n = list.len();
    let mut i: usize = 0;
    while i < n
        invariant
            *list == *old(list),
            n == list@.len(),
            i <= n,
            forall|t: int| 0 <= t < i ==> (#[trigger] list@[t]).id != id,
        decreases n - i,
    {
        if list[i].id == id {
            let item = list.remove(i);
            proof {
                assert((#[trigger] old(list)@[i as int]).id == id);
            }
            return Some(item);
        }
        i = i + 1;
    }
    None
}

/// Posts a success toast: five seconds, headline "Success".
pub fn ok(list: &mut MessageListValue, msg: &str)
    ensures
        final(list)@.len() == old(list)@.len() + 1,
        final(list)@.subrange(0, old(list)@.len() as int) == old(list)@,
        final(list)@.last().kind == MessageItemType::Success,
        final(list)@.last().room@ == "Success"@,
        final(list)@.last().content@ == msg@,
        final(list)@.last().timeout == Some(5u32),
        final(list)@.last().from is None,
        final(list)@.last().from_id is None,
{
    let item = MessageItemValue::new(MessageItemType::Success, "Success", msg, Some(5), None, None);
    proof {
        assert(old(list)@.push(item).subrange(0, old(list)@.len() as int) =~= old(list)@);
    }
    list.push(item);
}

/// Posts a warning toast: eight seconds, headline "Warning".
pub fn warn(list: &mut MessageListValue, msg: &str)
    ensures
        final(list)@.len() == old(list)@.len() + 1,
        final(list)@.subrange(0, old(list)@.len() as int) == old(list)@,
        final(list)@.last().kind == MessageItemType::Warning,
        final(list)@.last().room@ == "Warning"@,
        final(list)@.last().content@ == msg@,
        final(list)@.last().timeout == Some(8u32),
        final(list)@.last().from is None,
        final(list)@.last().from_id is None,
{
    let item = MessageItemValue::new(MessageItemType::Warning, "Warning", msg, Some(8), None, None);
    proof {
        assert(old(list)@.push(item).subrange(0, old(list)@.len() as int) =~= old(list)@);
    }
    list.push(item);
}

/// Posts an info toast: five seconds, headline "Info".
pub fn info(list: &mut MessageListValue, msg: &str)
    ensures
        final(list)@.len() == old(list)@.len() + 1,
        final(list)@.subrange(0, old(list)@.len() as int) == old(list)@,
        final(list)@.last().kind == MessageItemType::Info,
        final(list)@.last().room@ == "Info"@,
        final(list)@.last().content@ == msg@,
        final(list)@.last().timeout == Some(5u32),
        final(list)@.last().from is None,
        final(list)@.last().from_id is None,
{
    let item = MessageItemValue::new(MessageItemType::Info, "Info", msg, Some(5), None, None);
    proof {
        assert(old(list)@.push(item).subrange(0, old(list)@.len() as int) =~= old(list)@);
    }
    list.push(item);
}

/// Posts an error toast: ten seconds, headline "Error".
pub fn error(list: &mut MessageListValue, msg: &str)
    ensures
        final(list)@.len() == old(list)@.len() + 1,
        final(list)@.subrange(0, old(list)@.len() as int) == old(list)@,
        final(list)@.last().kind == MessageItemType::Danger,
        final(list)@.last().room@ == "Error"@,
        final(list)@.last().content@ == msg@,
        final(list)@.last().timeout == Some(10u32),
        final(list)@.last().from is None,
        final(list)@.last().from_id is None,
{
    let item = MessageItemValue::new(MessageItemType::Danger, "Error", msg, Some(10), None, None);
    proof {
        assert(old(list)@.push(item).subrange(0, old(list)@.len() as int) =~= old(list)@);
    }
    list.push(item);
}

/// Posts an incoming-chat toast: no timeout, carrying room, sender and
/// content.
pub fn message(list: &mut MessageListValue, room: &str, from_id: &str, from_name: &str, content: &str)
    ensures
        final(list)@.len() == old(list)@.len() + 1,
        final(list)@.subrange(0, old(list)@.len() as int) == old(list)@,
        final(list)@.last().kind == MessageItemType::Primary,
        final(list)@.last().room@ == room@,
        final(list)@.last().content@ == content@,
        final(list)@.last().timeout is None,
        final(list)@.last().from matches Some(n) && n@ == from_name@,
        final(list)@.last().from_id matches Some(n) && n@ == from_id@,
{
    let item = MessageItemValue::new(
        MessageItemType::Primary,
        room,
        content,
        None,
        Some(from_name),
        Some(from_id),
    );
    proof {
        assert(old(list)@.push(item).subrange(0, old(list)@.len() as int) =~= old(list)@);
    }
    list.push(item);
}

} // verus!
