use kit::components::message::{format_text, is_only_emojis, Order};

#[test]
fn int_01_complete_formatting_markdown_links_emojis() {
    let text = "**Important**: Check https://example.com :)";
    let result = format_text(text, true, true);

    assert!(
        result.contains("<strong>"),
        "Markdown bold should be applied"
    );

    assert!(
        result.contains("https://example.com"),
        "Link URL should be present in output"
    );

    assert!(result.contains("🙂"), "Emoji should be converted");

    assert!(result.contains("<p>") || result.contains("<strong>"));
}

#[test]
fn int_02_html_escape_then_markdown_links() {
    let text = "This <tag> & markdown **bold** at https://example.com";
    let result = format_text(text, true, false);

    assert!(result.contains("&lt;"), "< should be escaped");
    assert!(result.contains("&gt;"), "> should be escaped");
    assert!(result.contains("&amp;"), "& should be escaped");

    assert!(result.contains("<strong>"), "Markdown should be applied");

    assert!(
        result.contains("https://example.com"),
        "Link should be detected"
    );

    assert!(!result.contains("<tag>"), "Raw <tag> should be escaped");
}

#[test]
fn int_03_only_emojis_big_emoji_class() {
    let text = "😀😁😂";
    let result = format_text(text, false, true);

    assert!(
        result.contains("big-emoji"),
        "Should have big-emoji class for emoji-only messages"
    );

    assert!(result.contains("😀"), "Emoji should be preserved");
    assert!(result.contains("😁"), "Emoji should be preserved");
    assert!(result.contains("😂"), "Emoji should be preserved");

    assert!(result.contains("<span"), "Should use span, not p");
}

#[test]
fn int_03b_ascii_emojis_become_big_emoji() {
    let text = ":) :D ;)";
    let result = format_text(text, false, true);

    assert!(result.contains("🙂"), "ASCII emoji should be converted");
    assert!(result.contains("😁"), "ASCII emoji should be converted");
    assert!(result.contains("😉"), "ASCII emoji should be converted");

    if is_only_emojis("🙂😁😉") {
        assert!(
            result.contains("big-emoji"),
            "Big emoji class should be applied"
        );
    }
}

#[test]
fn int_04_mixed_links_and_markdown() {
    let text = "Contact me at mailto: user@example.com or visit https://example.com";
    let result = format_text(text, true, false);

    assert!(
        result.contains("user@example.com"),
        "email should be present in output"
    );
    assert!(
        result.contains("https://example.com"),
        "https URL should be present in output"
    );

    assert!(result.contains("Contact"), "Text should be preserved");
}

#[test]
fn int_05_xss_prevention_complete_formatting() {
    let text = "<script>alert('xss')</script> Hello **world**";
    let result = format_text(text, true, false);

    assert!(
        !result.contains("<script>"),
        "Script tag should be escaped, not executed"
    );

    assert!(result.contains("&lt;script"), "< should be escaped");
    assert!(result.contains("&gt;"), "> should be escaped");

    assert!(
        result.contains("<strong>"),
        "Legitimate markdown should still work"
    );
    assert!(result.contains("world"), "Text content should be preserved");

    assert!(result.contains("Hello"), "Text should be preserved");
}

#[test]
fn int_05b_event_handler_xss_prevention() {
    let text = "<img src=x onerror=\"alert('xss')\">";
    let result = format_text(text, false, false);

    assert!(result.contains("&lt;"), "< should be escaped");
    assert!(result.contains("&quot;"), "quotes should be escaped");
    assert!(result.contains("&gt;"), "> should be escaped");
    assert!(result.contains("&#x27;"), "single quotes should be escaped");

    assert!(!result.contains("<img"), "img tag should be escaped");
    assert!(
        result.contains("onerror=&quot;") || result.contains("onerror="),
        "onerror attribute text preserved but quotes escaped"
    );
    assert!(!result.contains("<img "), "No executable img tag should exist");
}

#[test]
fn int_06_code_block_preserves_ascii_emojis() {
    let text = "Here's some code:\n```\nsmile = ':)'\nface = ':('\n```\nEnd";
    let result = format_text(text, true, false);

    assert!(result.contains("code"), "Code block should be present");

    assert!(
        result.contains("':)'") || result.contains(":)"),
        "Code should preserve emoji syntax"
    );
}

#[test]
fn int_06b_indented_code_block() {
    let text = "Example:\n\n    emoji = ':)'\n\nEnd";
    let result = format_text(text, true, false);

    assert!(result.contains("emoji"), "Code content should be present");
    assert!(
        result.contains("':)'") || result.contains("'"),
        "Quotes should be preserved"
    );
}

#[test]
fn int_complex_multi_feature_message() {
    let text =
        "**Important** <script>alert</script> Check https://example.com & **also** www.test.org :)";
    let result = format_text(text, true, true);

    assert!(result.contains("<strong>"), "Markdown should work");

    assert!(result.contains("&lt;script"), "Script should be escaped");

    assert!(
        result.contains("https://example.com"),
        "HTTPS URL should be present in output"
    );
    assert!(
        result.contains("www.test.org"),
        "WWW URL should be present in output"
    );

    assert!(result.contains("&amp;"), "& should be escaped");

    assert!(result.contains("🙂"), "Emoji should be converted");
}

#[test]
fn int_multiple_link_types() {
    let text = "Contact: https://example.com, www.test.org, or user@test.com";
    let result = format_text(text, false, false);

    assert!(result.contains("https://example.com"), "HTTPS URL should be present");
    assert!(result.contains("www.test.org"), "WWW URL should be present");
    assert!(result.contains("user@test.com"), "Email should be present");
}

#[test]
fn int_all_markdown_features() {
    let text = "**bold** *italic* ~~strikethrough~~ `code` and more";
    let result = format_text(text, true, false);

    assert!(result.contains("<strong>"), "Bold should be applied");
    assert!(result.contains("<em>"), "Italic should be applied");
    assert!(result.contains("<del>"), "Strikethrough should be applied");
    assert!(result.contains("<code>"), "Code should be applied");
}

#[test]
fn int_full_pipeline_all_features() {
    let text = "Report <vulnerability> at https://security.example.com **asap** :)";
    let result = format_text(text, true, true);

    assert!(result.contains("&lt;vulnerability&gt;"));

    assert!(result.contains("<strong>asap</strong>"));

    assert!(result.contains("https://security.example.com"));

    assert!(result.contains("🙂"));
}

#[test]
fn int_edge_case_whitespace_only() {
    let text = "   ";
    let result = format_text(text, true, true);

    assert!(result.contains("<p>") || result.contains("<span>"));
}

#[test]
fn int_edge_case_only_special_chars() {
    let text = "< > & \" '";
    let result = format_text(text, false, false);

    assert!(result.contains("&lt;"));
    assert!(result.contains("&gt;"));
    assert!(result.contains("&amp;"));
    assert!(result.contains("&quot;"));
    assert!(result.contains("&#x27;"));
}

#[test]
fn int_order_enum_display() {
    assert_eq!(Order::First.to_string(), "message-first");
    assert_eq!(Order::Middle.to_string(), "message-middle");
    assert_eq!(Order::Last.to_string(), "message-last");

    assert!(Order::First != Order::Middle);
    assert!(Order::Middle != Order::Last);
    assert!(Order::First != Order::Last);

    assert!(Order::First == Order::First);
    assert!(Order::Middle == Order::Middle);
    assert!(Order::Last == Order::Last);
}

#[test]
fn int_newline_handling() {
    let text = "line 1\nline 2\nline 3";
    let result = format_text(text, false, false);

    assert!(result.contains("&nbsp;&nbsp;"));

    assert!(result.contains("line 1"));
    assert!(result.contains("line 2"));
    assert!(result.contains("line 3"));
}

#[test]
fn int_markdown_link_syntax_ignored_but_urls_detected() {
    let text = "Check [this](https://example.com) and also https://example.org";
    let result = format_text(text, true, false);

    assert!(result.contains("https://example.org"));
}

#[test]
fn int_emoji_with_surrounding_whitespace() {
    let text = "  🙂  ";
    let result = format_text(text, false, true);

    if is_only_emojis(text) {
        assert!(result.contains("big-emoji"));
    }
}

#[test]
fn int_realistic_message_scenario() {
    let text = "Hey! Check out this **cool** link: https://github.com/example/repo :) BTW, here's my <email>: user@example.com";
    let result = format_text(text, true, true);

    assert!(result.contains("cool"), "Text should be present");
    assert!(
        result.contains("<strong>cool</strong>"),
        "Markdown should work"
    );
    assert!(
        result.contains("https://github.com"),
        "HTTPS link should work"
    );
    assert!(result.contains("🙂"), "Emoji should be converted");
    assert!(result.contains("&lt;email&gt;"), "HTML should be escaped");
    assert!(
        result.contains("user@example.com"),
        "Email link should work"
    );
}
