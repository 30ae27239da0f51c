//! Chat message formatting: escaping, emoticons, markdown, link detection,
//! and the decisions the message views make.
pub mod emoji;
pub mod format;
pub mod html;
pub mod links;
pub mod markdown;
pub mod pattern;
pub mod render;
pub mod text;

pub use emoji::{is_only_emojis, process_string, replace_emojis, stack_processor};
pub use format::{escape_text, format_escaped, format_text};
pub use html::HTML_ESCAPES;
pub use links::wrap_links_with_a_tags;
pub use markdown::markdown;

use vstd::prelude::*;

verus! {

/// The place of a message in a run of consecutive messages of one sender.
#[derive(Eq, PartialEq, Clone, Copy, Structural)]
pub enum Order {
    First,
    Middle,
    Last,
}

/// The CSS class of a message's place in a run.
pub open spec fn order_class(order: Order) -> Seq<char> {
    match order {
        Order::First => "message-first"@,
        Order::Middle => "message-middle"@,
        Order::Last => "message-last"@,
    }
}

impl Order {
    /// The CSS class of this place in a run of messages.
    pub fn to_string(&self) -> (s: String)
        ensures
            s@ == order_class(*self),
    {
        match self {
            Order::First => String::from_str("message-first"),
            Order::Middle => String::from_str("message-middle"),
            Order::Last => String::from_str("message-last"),
        }
    }
}

/// Different places in a run have different CSS classes.
pub proof fn lemma_order_classes_distinct(a: Order, b: Order)
    ensures
        a != b ==> order_class(a) != order_class(b),
{
    reveal_strlit("message-first");
    reveal_strlit("message-middle");
    reveal_strlit("message-last");
    assert("message-first"@[8] != "message-middle"@[8]);
    assert("message-first"@[8] != "message-last"@[8]);
    assert("message-middle"@[8] != "message-last"@[8]);
}

/// A reaction to a message, as the message view shows it.
#[derive(Eq, PartialEq, Clone)]
pub struct ReactionAdapter {
    pub emoji: String,
    pub alt: String,
    pub self_reacted: bool,
    pub reaction_count: usize,
}

} // verus!
