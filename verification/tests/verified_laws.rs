use kit::components::message::markdown::markdown;
use kit::components::message::render::{
    edit_result, friend_button_key, friend_request_disabled, friend_request_error_key,
    may_be_identity, message_look, reaction_look, resend_plan, short_name, text_aria_label,
    text_class, ResendPlan,
};
use kit::components::message::{
    escape_text, format_escaped, format_text, is_only_emojis, process_string, replace_emojis,
    stack_processor, wrap_links_with_a_tags, Order, HTML_ESCAPES,
};

fn same(s: &str) -> &str {
    s
}

fn greet(s: &str) -> &str {
    if s == "hi" {
        "hello"
    } else {
        s
    }
}

#[test]
fn escape_text_replaces_each_special_character() {
    assert_eq!(escape_text("a<b>&\"'"), "a&lt;b&gt;&amp;&quot;&#x27;");
}

#[test]
fn escape_text_marks_line_breaks() {
    assert_eq!(escape_text("a\nb"), "a&nbsp;&nbsp;\nb");
}

#[test]
fn escape_text_escapes_entities_once() {
    assert_eq!(escape_text("&amp;"), "&amp;amp;");
    assert_eq!(escape_text("&lt;"), "&amp;lt;");
}

#[test]
fn escape_text_leaves_plain_text() {
    assert_eq!(escape_text("plain words"), "plain words");
    assert_eq!(escape_text(""), "");
}

#[test]
fn html_escapes_table() {
    assert_eq!(HTML_ESCAPES[0], ("&", "&amp;"));
    assert_eq!(HTML_ESCAPES[4], ("'", "&#x27;"));
}

#[test]
fn format_text_plain_is_escaped_paragraph() {
    assert_eq!(
        format_text("<b>hi</b>", false, false),
        "<p>&lt;b&gt;hi&lt;/b&gt;</p>"
    );
}

#[test]
fn format_text_plain_trims() {
    assert_eq!(format_text("  hello  ", false, false), "<p>hello</p>");
}

#[test]
fn format_text_plain_body_holds_no_markup() {
    let out = format_text("<script>alert('x')</script> \"q\"", false, true);
    let body = out
        .strip_prefix("<p>")
        .and_then(|b| b.strip_suffix("</p>"))
        .expect("a paragraph");
    for c in ['<', '>', '"', '\''] {
        assert!(!body.contains(c));
    }
}

#[test]
fn format_text_emoticon_alone_is_big_emoji() {
    assert_eq!(
        format_text(":)", false, true),
        "<span class=\"big-emoji\">🙂</span>"
    );
}

#[test]
fn format_text_emoticon_in_text() {
    assert_eq!(format_text("hi :)", false, true), "<p>hi 🙂</p>");
}

#[test]
fn format_text_without_emojis_keeps_emoticons() {
    assert_eq!(format_text("hi :)", false, false), "<p>hi :)</p>");
}

#[test]
fn format_escaped_takes_escaped_text_as_is() {
    assert_eq!(format_escaped("a &amp; b", false, false), "<p>a &amp; b</p>");
}

#[test]
fn markdown_plain_paragraph() {
    assert_eq!(markdown("hello", false), "<p>hello\n");
}

#[test]
fn markdown_numbers_are_not_big_emoji() {
    assert_eq!(markdown("123", true), "<p>123</p>");
    for s in ["1", "11", "111", "#", "*", "##", "**", "-"] {
        assert_eq!(markdown(s, true), format!("<p>{}</p>", s));
    }
}

#[test]
fn markdown_keeps_link_syntax() {
    assert_eq!(
        markdown("[link](https://example.com)", false),
        "<p>[link](https://example.com)\n"
    );
    assert_eq!(markdown("see [a](b) now", false), "<p>see [a](b) now\n");
}

#[test]
fn markdown_keeps_image_syntax() {
    assert_eq!(markdown("![alt](x.png)", false), "<p>![alt](x.png)\n");
}

#[test]
fn markdown_writes_raw_html_as_it_is() {
    assert_eq!(markdown("a <b>x</b>", false), "<p>a <b>x</b>\n");
}

#[test]
fn format_text_heart_after_escaping() {
    assert!(format_text("I love you <3", false, true).contains("\u{2764}\u{fe0f}"));
    assert_eq!(
        format_text(">:)", false, true),
        "<span class=\"big-emoji\">\u{1f608}</span>"
    );
    assert_eq!(format_text("so >:( now", false, true), "<p>so \u{1f620} now</p>");
    assert_eq!(
        format_text("<3", true, true),
        "<span class=\"big-emoji\">\u{2764}\u{fe0f}</span>"
    );
}

#[test]
fn format_text_typed_entity_is_no_emoticon() {
    assert_eq!(format_text("&lt;3", false, true), "<p>&amp;lt;3</p>");
}

#[test]
fn markdown_code_block_keeps_emoticons() {
    let r = markdown("```\n:) x\n```", true);
    assert!(r.contains(":) x"));
    assert!(!r.contains("🙂"));
}

#[test]
fn markdown_code_block_end_closes_raw_text() {
    let r = format_text("> ```\n> x\n<script>", true, false);
    assert!(!r.to_ascii_lowercase().contains("<script"));
}

#[test]
fn markdown_code_block_entity_word_stays_escaped() {
    let r = format_text("```\na < b\n```", true, false);
    assert!(r.contains("a &lt; b"));
}

#[test]
fn format_text_code_span_shows_entity_as_typed() {
    assert_eq!(format_text("`&lt;`", true, false), "<p><code>&amp;lt;</code>\n");
}

#[test]
fn format_text_code_span_round_trip() {
    assert_eq!(
        format_text("`a<b & \"q\" &amp;`", true, false),
        "<p><code>a&lt;b &amp; \"q\" &amp;amp;</code>\n"
    );
}

#[test]
fn format_text_code_span_shows_tag_as_typed() {
    assert_eq!(format_text("`<b>`", true, false), "<p><code>&lt;b&gt;</code>\n");
}

#[test]
fn markdown_code_span_unescapes_then_escapes_once() {
    assert_eq!(markdown("`a&lt;b`", false), "<p><code>a&lt;b</code>\n");
}

#[test]
fn markdown_after_escape_is_format_text() {
    let text = "**bold** & <i>";
    assert_eq!(
        format_text(text, true, false),
        markdown(&escape_text(text), false)
    );
}

#[test]
fn process_string_identity_keeps_text() {
    assert_eq!(process_string("a b  c ", same), "a b  c ");
    assert_eq!(process_string("", same), "");
}

#[test]
fn process_string_maps_each_word() {
    assert_eq!(process_string("hi there hi", greet), "hello there hello");
}

#[test]
fn stack_processor_unescapes_entities() {
    assert_eq!(stack_processor("&amp;", true, false), "&");
    assert_eq!(stack_processor("&lt;", true, false), "<");
    assert_eq!(stack_processor("&nbsp;", true, false), " ");
    for (plain, entity) in HTML_ESCAPES {
        assert_eq!(stack_processor(entity, true, true), plain);
    }
}

#[test]
fn stack_processor_without_emojis_keeps_word() {
    assert_eq!(stack_processor(":)", false, false), ":)");
    assert_eq!(stack_processor("&amp;", false, false), "&amp;");
}

#[test]
fn stack_processor_emoticons() {
    assert_eq!(stack_processor(":(", false, true), " 🙁");
    assert_eq!(stack_processor("<3", false, true), "❤️");
    assert_eq!(stack_processor("word", false, true), "word");
}

#[test]
fn replace_emojis_leaves_plain_words() {
    assert_eq!(replace_emojis("hello world"), "hello world");
}

#[test]
fn replace_emojis_exact() {
    assert_eq!(replace_emojis(":) x ;)"), "🙂 x 😉");
}

#[test]
fn is_only_emojis_blank_is_true() {
    assert!(is_only_emojis(""));
    assert!(is_only_emojis("   "));
}

#[test]
fn is_only_emojis_cases() {
    assert!(is_only_emojis("😀"));
    assert!(is_only_emojis(" 😀 "));
    assert!(!is_only_emojis("a"));
    assert!(!is_only_emojis("😀 a"));
}

#[test]
fn is_only_emojis_digits_are_text() {
    assert!(!is_only_emojis("1"));
    assert!(!is_only_emojis("123"));
    assert!(!is_only_emojis("😀 7"));
}

#[test]
fn is_only_emojis_keycap_is_emoji() {
    assert!(is_only_emojis("1\u{fe0f}\u{20e3}"));
}

#[test]
fn replace_emojis_is_idempotent() {
    for s in [":( x", ":) :P <3", "a  b :/", ""] {
        let once = replace_emojis(s);
        assert_eq!(replace_emojis(&once), once);
    }
}

#[test]
fn wrap_links_without_links_is_unchanged() {
    let (html, links) = wrap_links_with_a_tags("no links here");
    assert_eq!(html, "no links here");
    assert!(links.is_empty());
}

#[test]
fn wrap_links_www_gets_scheme() {
    let (html, links) = wrap_links_with_a_tags("go www.example.com now");
    assert_eq!(
        html,
        "go <a href=\"https://www.example.com\">www.example.com</a> now"
    );
    assert_eq!(links, vec!["https://www.example.com"]);
}

#[test]
fn wrap_links_mailto_with_space() {
    let (html, links) = wrap_links_with_a_tags("mail mailto: a@b.io");
    assert_eq!(html, "mail mailto: <a href=\"mailto: a@b.io\">a@b.io</a>");
    assert!(links.is_empty());
}

#[test]
fn wrap_links_two_links_in_order() {
    let (html, links) = wrap_links_with_a_tags("https://a.org and https://b.org");
    assert_eq!(
        html,
        "<a href=\"https://a.org\">https://a.org</a> and <a href=\"https://b.org\">https://b.org</a>"
    );
    assert_eq!(links, vec!["https://a.org", "https://b.org"]);
}

#[test]
fn order_classes_are_distinct() {
    assert_eq!(Order::First.to_string(), "message-first");
    assert_eq!(Order::Middle.to_string(), "message-middle");
    assert_eq!(Order::Last.to_string(), "message-last");
    assert_ne!(Order::First.to_string(), Order::Last.to_string());
}

#[test]
fn message_look_defaults() {
    let look = message_look(None, None, None, false, false, true, false);
    assert_eq!(look.class, "message   message-last   ");
    assert_eq!(look.aria_label, "message-local");
    assert_eq!(look.reactions_class, "message-reactions-container ");
    assert!(!look.is_editing);
    assert!(look.shows_text);
}

#[test]
fn message_look_all_flags() {
    let look = message_look(
        Some(true),
        Some(true),
        Some(Order::First),
        true,
        true,
        true,
        true,
    );
    assert_eq!(
        look.class,
        "message loading remote message-first message-pending mention edit-message"
    );
    assert_eq!(look.aria_label, "message-remote");
    assert!(look.is_editing);
    assert!(!look.shows_text);
}

#[test]
fn message_look_editing_needs_text() {
    let look = message_look(None, None, Some(Order::Middle), false, false, false, true);
    assert_eq!(look.class, "message   message-middle   ");
    assert!(!look.is_editing);
    assert!(!look.shows_text);
}

#[test]
fn reaction_look_self_and_remote() {
    let (class, aria) = reaction_look(true);
    assert_eq!(class, "emoji-reaction emoji-reaction-self");
    assert_eq!(aria, "emoji-reaction-self");
    let (class, aria) = reaction_look(false);
    assert_eq!(class, "emoji-reaction ");
    assert_eq!(aria, "emoji-reaction-remote");
}

#[test]
fn resend_plan_cases() {
    assert!(resend_plan(Some(0)) == ResendPlan::ResendWithText);
    assert!(resend_plan(Some(1)) == ResendPlan::ResendWithText);
    assert!(resend_plan(Some(2)) == ResendPlan::DeleteThenResend);
    assert!(resend_plan(None) == ResendPlan::DeleteThenResend);
}

#[test]
fn edit_result_cases() {
    let original = String::from("old");
    assert_eq!(edit_result(String::from("new"), true, &original), "new");
    assert_eq!(edit_result(String::from("new"), false, &original), "old");
    assert_eq!(edit_result(String::new(), true, &original), "old");
}

#[test]
fn text_class_and_label() {
    assert_eq!(text_class(true), "pending-text");
    assert_eq!(text_class(false), "text");
    assert_eq!(text_aria_label("hi"), "message-text-hi");
}

#[test]
fn may_be_identity_needs_three_bytes() {
    assert!(!may_be_identity(""));
    assert!(!may_be_identity("ab"));
    assert!(may_be_identity("abc"));
}

#[test]
fn friend_request_rules() {
    let outgoing = vec![String::from("did:a")];
    let friends = vec![String::from("did:f")];
    assert!(friend_request_disabled("did:a", "did:me", &outgoing, &friends));
    assert!(friend_request_disabled("did:me", "did:me", &outgoing, &friends));
    assert!(friend_request_disabled("did:f", "did:me", &outgoing, &friends));
    assert!(!friend_request_disabled("did:x", "did:me", &outgoing, &friends));
}

#[test]
fn identity_texts() {
    assert_eq!(short_name("bob", "a1b2"), "bob#a1b2");
    assert_eq!(friend_request_error_key(true), "friends.key-blocked");
    assert_eq!(friend_request_error_key(false), "friends.add-failed");
    assert_eq!(friend_button_key(true), "friends.already-friends");
    assert_eq!(friend_button_key(false), "friends.add-name");
}

#[test]
fn format_text_holds_no_script_tag() {
    for text in ["<ScRiPt>alert(1)</script>", "<script", "x <SCRIPT src=a>"] {
        for md in [false, true] {
            for emojis in [false, true] {
                let out = format_text(text, md, emojis);
                assert!(!out.to_ascii_lowercase().contains("<script"));
            }
        }
    }
}

#[test]
fn emoji_characters_only_counts_digits() {
    assert!(kit::components::message::emoji::emoji_characters_only("1"));
    assert!(!kit::components::message::emoji::emoji_characters_only("a"));
    assert!(!is_only_emojis("1"));
}
