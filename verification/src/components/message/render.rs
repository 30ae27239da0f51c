//! The decisions of the message views: CSS classes, labels, what an edit or
//! a resend does, and when a friend request can be sent.
use vstd::prelude::*;
use super::{order_class, Order};
use super::text::{append_str, chars_to_string, str_to_chars};

verus! {

/// `word` when `on`, nothing otherwise.
pub open spec fn flag(on: bool, word: Seq<char>) -> Seq<char> {
    if on {
        word
    } else {
        Seq::<char>::empty()
    }
}

/// How a message is shown.
pub struct MessageLook {
    /// The CSS classes of the message.
    pub class: String,
    /// Its accessibility label.
    pub aria_label: String,
    /// The CSS classes of its reactions.
    pub reactions_class: String,
    /// The message text is being edited.
    pub is_editing: bool,
    /// The message text is shown (it exists and is not being edited).
    pub shows_text: bool,
}

/// The CSS classes of a message.
pub open spec fn message_class_spec(loading: bool, remote: bool, order: Order, pending: bool, mention: bool, editing: bool) -> Seq<char> {
    "message "@ + flag(loading, "loading"@) + " "@ + flag(remote, "remote"@) + " "@ + order_class(order) + " "@
        + flag(pending, "message-pending"@) + " "@ + flag(mention, "mention"@) + " "@ + flag(editing, "edit-message"@)
}

/// The accessibility label of a message.
pub open spec fn message_aria_spec(remote: bool) -> Seq<char> {
    if remote {
        "message-remote"@
    } else {
        "message-local"@
    }
}

/// Appends `word` when `on`.
fn append_flag(out: &mut Vec<char>, on: bool, word: &str)
    ensures
        final(out)@ == old(out)@ + flag(on, word@),
{
    if on {
        append_str(out, word);
    } else {
        assert(final(out)@ =~= old(out)@ + flag(on, word@));
    }
}

/// How a message is shown: a message is not loading, local and last in its
/// run unless told otherwise; its text is being edited only when it has one.
pub fn message_look(
    loading: Option<bool>,
    remote: Option<bool>,
    order: Option<Order>,
    pending: bool,
    is_mention: bool,
    has_text: bool,
    editing: bool,
) -> (look: MessageLook)
    ensures
        look.is_editing == (has_text && editing),
        look.shows_text == (has_text && !editing),
        look.class@ == message_class_spec(
            loading.unwrap_or(false),
            remote.unwrap_or(false),
            order.unwrap_or(Order::Last),
            pending,
            is_mention,
            has_text && editing,
        ),
        look.aria_label@ == message_aria_spec(remote.unwrap_or(false)),
        look.reactions_class@ == "message-reactions-container "@,
{
    let loading = match loading {
        Some(b) => b,
        None => false,
    };
    let is_remote = match remote {
        Some(b) => b,
        None => false,
    };
    let order = match order {
        Some(o) => o,
        None => Order::Last,
    };
    let is_editing = has_text && editing;
    let mut class: Vec<char> = Vec::new();
    append_str(&mut class, "message ");
    append_flag(&mut class, loading, "loading");
    append_str(&mut class, " ");
    append_flag(&mut class, is_remote, "remote");
    append_str(&mut class, " ");
    let order_name = order.to_string();
    append_str(&mut class, order_name.as_str());
    append_str(&mut class, " ");
    append_flag(&mut class, pending, "message-pending");
    append_str(&mut class, " ");
    append_flag(&mut class, is_mention, "mention");
    append_str(&mut class, " ");
    append_flag(&mut class, is_editing, "edit-message");
    assert(class@ =~= message_class_spec(loading, is_remote, order, pending, is_mention, is_editing));
    let aria_label = if is_remote {
        String::from_str("message-remote")
    } else {
        String::from_str("message-local")
    };
    MessageLook {
        class: chars_to_string(&class),
        aria_label,
        reactions_class: String::from_str("message-reactions-container "),
        is_editing,
        shows_text: has_text && !editing,
    }
}

/// The CSS classes and accessibility label of a reaction.
pub fn reaction_look(self_reacted: bool) -> (look: (String, String))
    ensures
        look.0@ == "emoji-reaction "@ + flag(self_reacted, "emoji-reaction-self"@),
        look.1@ == if self_reacted {
            "emoji-reaction-self"@
        } else {
            "emoji-reaction-remote"@
        },
{
    let mut class: Vec<char> = Vec::new();
    append_str(&mut class, "emoji-reaction ");
    append_flag(&mut class, self_reacted, "emoji-reaction-self");
    let aria = if self_reacted {
        String::from_str("emoji-reaction-self")
    } else {
        String::from_str("emoji-reaction-remote")
    };
    (chars_to_string(&class), aria)
}

/// What a failed upload's resend button does.
#[derive(PartialEq, Eq, Structural)]
pub enum ResendPlan {
    /// Resend the message with its text and the attachment.
    ResendWithText,
    /// Delete the attachment, then resend it without text.
    DeleteThenResend,
}

/// The resend plan of a message with `pending_uploads` uploads in progress
/// (if it has any): a message with a single upload is resent with its text;
/// otherwise the attachment is deleted and resent alone.
pub fn resend_plan(pending_uploads: Option<usize>) -> (plan: ResendPlan)
    ensures
        plan == (if pending_uploads matches Some(n) && n < 2 {
            ResendPlan::ResendWithText
        } else {
            ResendPlan::DeleteThenResend
        }),
{
    let single = match pending_uploads {
        Some(n) => n < 2,
        None => false,
    };
    if single {
        ResendPlan::ResendWithText
    } else {
        ResendPlan::DeleteThenResend
    }
}

/// The text an edit ends with: the new text when it is valid and not empty,
/// the original text otherwise.
pub fn edit_result(input: String, is_valid: bool, original: &String) -> (r: String)
    ensures
        r@ == if is_valid && input@.len() > 0 {
            input@
        } else {
            original@
        },
{
    if is_valid && !input.as_str().is_empty() {
        input
    } else {
        original.clone()
    }
}

/// The CSS class of a message text: pending messages look different.
pub fn text_class(pending: bool) -> (r: String)
    ensures
        r@ == if pending {
            "pending-text"@
        } else {
            "text"@
        },
{
    if pending {
        String::from_str("pending-text")
    } else {
        String::from_str("text")
    }
}

/// Whether a message text is long enough to be tried as an identity key
/// (shorter texts are never one, and parsing them can fail badly).
pub fn may_be_identity(text: &str) -> (r: bool)
    ensures
        r == (text.len() > 2),
{
    text.len() > 2
}

/// The accessibility label of a message text.
pub fn text_aria_label(text: &str) -> (r: String)
    ensures
        r@ == "message-text-"@ + text@,
{
    let mut out = str_to_chars("message-text-");
    append_str(&mut out, text);
    chars_to_string(&out)
}

/// Whether `x` is one of `items`.
pub open spec fn listed(items: Seq<String>, x: Seq<char>) -> bool {
    exists|i: int| 0 <= i < items.len() && #[trigger] items[i]@ == x
}

/// Whether the identity `did` is one of `items`.
fn is_listed(items: &Vec<String>, did: &str) -> (r: bool)
    ensures
        r == listed(items@, did@),
{
    let mut i: usize = 0;
    while i < items.len()
        invariant
            i <= items.len(),
            forall|j: int| 0 <= j < i ==> #[trigger] items@[j]@ != did@,
        decreases items.len() - i,
    {
        if super::text::str_eq(items[i].as_str(), did) {
            return true;
        }
        i = i + 1;
    }
    false
}

/// A friend request to `did` cannot be sent when one is already outgoing,
/// when `did` is the user's own identity, or when it is already a friend.
pub fn friend_request_disabled(did: &str, own: &str, outgoing: &Vec<String>, friends: &Vec<String>) -> (r: bool)
    ensures
        r == (listed(outgoing@, did@) || own@ == did@ || listed(friends@, did@)),
{
    is_listed(outgoing, did) || super::text::str_eq(own, did) || is_listed(friends, did)
}

/// The short name of an identity: its user name, `#` and its short id.
pub fn short_name(username: &str, short_id: &str) -> (r: String)
    ensures
        r@ == username@ + "#"@ + short_id@,
{
    let mut out = str_to_chars(username);
    append_str(&mut out, "#");
    append_str(&mut out, short_id);
    chars_to_string(&out)
}

/// The text key of the message shown when a friend request fails: a blocked
/// key has its own message.
pub fn friend_request_error_key(key_blocked: bool) -> (r: &'static str)
    ensures
        r@ == if key_blocked {
            "friends.key-blocked"@
        } else {
            "friends.add-failed"@
        },
{
    if key_blocked {
        "friends.key-blocked"
    } else {
        "friends.add-failed"
    }
}

/// The text key of the friend request button.
pub fn friend_button_key(disabled: bool) -> (r: &'static str)
    ensures
        r@ == if disabled {
            "friends.already-friends"@
        } else {
            "friends.add-name"@
        },
{
    if disabled {
        "friends.already-friends"
    } else {
        "friends.add-name"
    }
}

} // verus!
