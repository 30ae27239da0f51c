//! The message formatting pipeline: HTML escaping, then markdown or emoji
//! rendering.
use vstd::prelude::*;
use super::html::HTML_ESCAPES;
use super::emoji::{html_special, lemma_replace_escaped_emojis_lacks, is_only_emojis, is_only_emojis_spec, lemma_html_escapes_entries, replace_escaped_emojis, replace_escaped_emojis_spec};
use super::markdown::{big_emoji_candidate, uses_renderer, markdown, markdown_opens_no_user_tag, markdown_spec, unescape_code_spec, unescape_entry};
use super::text::{lacks, lemma_replace_lacks, lemma_trim_lacks, append_chars, append_str, chars_to_string, replace_chars, replace_spec, str_to_chars, trim_chars, trim_spec};

verus! {

/// `s` with the first `n` entries of [`HTML_ESCAPES`] applied, one after the
/// other: each character replaced by its entity.
pub open spec fn escape_html_spec(s: Seq<char>, n: nat) -> Seq<char>
    decreases n,
{
    if n == 0 {
        s
    } else {
        replace_spec(escape_html_spec(s, (n - 1) as nat), HTML_ESCAPES[n - 1].0@, HTML_ESCAPES[n - 1].1@)
    }
}

/// `s` with HTML special characters escaped and every line break preceded
/// by two non-breaking spaces.
pub open spec fn escape_text_spec(s: Seq<char>) -> Seq<char> {
    replace_spec(escape_html_spec(s, 5), "\n"@, "&nbsp;&nbsp;\n"@)
}

/// Escapes the HTML special characters of `text` with [`HTML_ESCAPES`], in
/// order, and puts two non-breaking spaces before every line break.
pub fn escape_text(text: &str) -> (r: String)
    ensures
        r@ == escape_text_spec(text@),
{
    proof {
        lemma_html_escapes_entries();
        reveal_strlit("&");
        reveal_strlit("<");
        reveal_strlit(">");
        reveal_strlit("\"");
        reveal_strlit("\'");
        reveal_strlit("\n");
    }
    let mut cur = str_to_chars(text);
    let mut i: usize = 0;
    while i < 5
        invariant
            i <= 5,
            cur@ == escape_html_spec(text@, i as nat),
            forall|j: int| 0 <= j < 5 ==> #[trigger] HTML_ESCAPES[j].0@.len() > 0,
        decreases 5 - i,
    {
        let (plain, entity) = HTML_ESCAPES[i];
        let from = str_to_chars(plain);
        let to = str_to_chars(entity);
        cur = replace_chars(&cur, &from, &to);
        i = i + 1;
    }
    let nl = str_to_chars("\n");
    let nbsp = str_to_chars("&nbsp;&nbsp;\n");
    chars_to_string(&replace_chars(&cur, &nl, &nbsp))
}

/// The body of a message shown without markdown: the trimmed escaped text,
/// with emoticons (in their escaped forms too, such as `&lt;3`) replaced
/// when `emojis` is set.
pub open spec fn plain_body_spec(safe: Seq<char>, emojis: bool) -> Seq<char> {
    if emojis {
        replace_escaped_emojis_spec(trim_spec(safe))
    } else {
        trim_spec(safe)
    }
}

/// What [`format_escaped`] returns for text that is already escaped.
pub open spec fn format_escaped_spec(safe: Seq<char>, should_markdown: bool, emojis: bool) -> Seq<char> {
    let body = plain_body_spec(safe, emojis);
    if should_markdown {
        markdown_spec(safe, emojis)
    } else if emojis && is_only_emojis_spec(body) {
        "<span class=\"big-emoji\">"@ + body + "</span>"@
    } else {
        "<p>"@ + body + "</p>"@
    }
}

/// What [`format_text`] returns: the escaped text, formatted.
pub open spec fn format_text_spec(text: Seq<char>, should_markdown: bool, emojis: bool) -> Seq<char> {
    format_escaped_spec(escape_text_spec(text), should_markdown, emojis)
}

/// Formats text that is already HTML-escaped: as markdown, or as a
/// paragraph (a big-emoji span when it is emojis only), with emoticons
/// replaced when `emojis` is set.
pub fn format_escaped(safe: &str, should_markdown: bool, emojis: bool) -> (res: String)
    ensures
        res@ == format_escaped_spec(safe@, should_markdown, emojis),
        should_markdown && lacks(safe@, '<') ==> markdown_opens_no_user_tag(safe@, emojis),
{
    if should_markdown {
        return markdown(safe, emojis);
    }
    let trimmed = trim_chars(&str_to_chars(safe));
    let mut out: Vec<char> = Vec::new();
    if emojis {
        let s = replace_escaped_emojis(chars_to_string(&trimmed).as_str());
        let sc = str_to_chars(s.as_str());
        if is_only_emojis(s.as_str()) {
            append_str(&mut out, "<span class=\"big-emoji\">");
            append_chars(&mut out, &sc);
            append_str(&mut out, "</span>");
        } else {
            append_str(&mut out, "<p>");
            append_chars(&mut out, &sc);
            append_str(&mut out, "</p>");
        }
    } else {
        append_str(&mut out, "<p>");
        append_chars(&mut out, &trimmed);
        append_str(&mut out, "</p>");
    }
    chars_to_string(&out)
}

/// Formats a message for display: escapes its HTML special characters, then
/// renders it as markdown (when `should_markdown`) or as a paragraph, with
/// ASCII emoticons replaced by emojis when `emojis` is set. With markdown,
/// the message's own text opens no tag: every `<` of the output is markup of
/// the renderer (see [`markdown_opens_no_user_tag`]); without it, see
/// [`lemma_plain_message_is_inert`] and [`lemma_format_text_opens_no_script`].
pub fn format_text(text: &str, should_markdown: bool, emojis: bool) -> (res: String)
    ensures
        res@ == format_text_spec(text@, should_markdown, emojis),
        should_markdown ==> markdown_opens_no_user_tag(escape_text_spec(text@), emojis),
{
    proof {
        lemma_escape_text_inert(text@);
    }
    let safe = escape_text(text);
    format_escaped(safe.as_str(), should_markdown, emojis)
}


/// The replacement texts of escaping hold none of `<`, `>`, `"` and `'`.
proof fn lemma_escape_entities_inert(x: char)
    requires
        html_special(x),
    ensures
        forall|j: int| 0 <= j < 5 ==> lacks(#[trigger] HTML_ESCAPES[j].1@, x),
        lacks("&nbsp;&nbsp;\n"@, x),
{
    lemma_html_escapes_entries();
    reveal_strlit("&amp;");
    reveal_strlit("&lt;");
    reveal_strlit("&gt;");
    reveal_strlit("&quot;");
    reveal_strlit("&#x27;");
    reveal_strlit("&nbsp;&nbsp;\n");
    assert forall|j: int| 0 <= j < 5 implies lacks(#[trigger] HTML_ESCAPES[j].1@, x) by {
        assert(j == 0 || j == 1 || j == 2 || j == 3 || j == 4);
    }
}

/// Once entry `k` of [`HTML_ESCAPES`] has replaced the character `x`, no
/// later entry brings it back.
proof fn lemma_escape_html_lacks(s: Seq<char>, n: nat, x: char, k: int)
    requires
        n <= 5,
        0 <= k < n,
        HTML_ESCAPES[k].0@ == seq![x],
        html_special(x),
    ensures
        lacks(escape_html_spec(s, n), x),
    decreases n,
{
    lemma_html_escapes_entries();
    reveal_strlit("&");
    reveal_strlit("<");
    reveal_strlit(">");
    reveal_strlit("\"");
    reveal_strlit("\'");
    lemma_escape_entities_inert(x);
    let prev = escape_html_spec(s, (n - 1) as nat);
    let from = HTML_ESCAPES[n - 1].0@;
    let to = HTML_ESCAPES[n - 1].1@;
    assert(lacks(to, x));
    assert(from.len() > 0) by {
        assert(n - 1 == 0 || n - 1 == 1 || n - 1 == 2 || n - 1 == 3 || n - 1 == 4);
    }
    if n - 1 == k {
        lemma_replace_lacks(prev, from, to, x);
    } else {
        lemma_escape_html_lacks(s, (n - 1) as nat, x, k);
        lemma_replace_lacks(prev, from, to, x);
    }
}

/// None of `<`, `>`, `"` and `'` occurs in `s`.
pub open spec fn html_inert(s: Seq<char>) -> bool {
    &&& lacks(s, '<')
    &&& lacks(s, '>')
    &&& lacks(s, '"')
    &&& lacks(s, '\'')
}

/// Escaped text holds none of `<`, `>`, `"` and `'`.
pub proof fn lemma_escape_text_inert(text: Seq<char>)
    ensures
        html_inert(escape_text_spec(text)),
{
    lemma_html_escapes_entries();
    reveal_strlit("<");
    reveal_strlit(">");
    reveal_strlit("\"");
    reveal_strlit("\'");
    reveal_strlit("\n");
    let e = escape_html_spec(text, 5);
    assert("<"@ =~= seq!['<']);
    assert(">"@ =~= seq!['>']);
    assert("\""@ =~= seq!['"']);
    assert("\'"@ =~= seq!['\'']);
    lemma_escape_html_lacks(text, 5, '<', 1);
    lemma_escape_html_lacks(text, 5, '>', 2);
    lemma_escape_html_lacks(text, 5, '"', 3);
    lemma_escape_html_lacks(text, 5, '\'', 4);
    lemma_escape_entities_inert('<');
    lemma_escape_entities_inert('>');
    lemma_escape_entities_inert('"');
    lemma_escape_entities_inert('\'');
    lemma_replace_lacks(e, "\n"@, "&nbsp;&nbsp;\n"@, '<');
    lemma_replace_lacks(e, "\n"@, "&nbsp;&nbsp;\n"@, '>');
    lemma_replace_lacks(e, "\n"@, "&nbsp;&nbsp;\n"@, '"');
    lemma_replace_lacks(e, "\n"@, "&nbsp;&nbsp;\n"@, '\'');
}

/// Without markdown, a formatted message is one paragraph or one big-emoji
/// span around the message text, and that text holds none of `<`, `>`, `"`
/// and `'`: whatever the user typed, it can open no tag and close no
/// attribute.
pub proof fn lemma_plain_message_is_inert(text: Seq<char>, emojis: bool)
    ensures
        html_inert(plain_body_spec(escape_text_spec(text), emojis)),
        format_text_spec(text, false, emojis) == "<p>"@ + plain_body_spec(escape_text_spec(text), emojis) + "</p>"@
            || format_text_spec(text, false, emojis) == "<span class=\"big-emoji\">"@ + plain_body_spec(escape_text_spec(text), emojis) + "</span>"@,
{
    let safe = escape_text_spec(text);
    lemma_escape_text_inert(text);
    lemma_trim_lacks(safe, '<');
    lemma_trim_lacks(safe, '>');
    lemma_trim_lacks(safe, '"');
    lemma_trim_lacks(safe, '\'');
    if emojis {
        let t = trim_spec(safe);
        lemma_replace_escaped_emojis_lacks(t, '<');
        lemma_replace_escaped_emojis_lacks(t, '>');
        lemma_replace_escaped_emojis_lacks(t, '"');
        lemma_replace_escaped_emojis_lacks(t, '\'');
    }
}

/// `c` in lower case, when it is an ASCII capital letter.
pub open spec fn ascii_lower(c: char) -> char {
    if 65 <= (c as u32) <= 90 {
        ((c as u32) + 32) as char
    } else {
        c
    }
}

/// A `<script` tag, in any mix of cases, starts at position `i` of `s`.
pub open spec fn script_at(s: Seq<char>, i: int) -> bool {
    &&& 0 <= i
    &&& i + 7 <= s.len()
    &&& s[i] == '<'
    &&& ascii_lower(s[i + 1]) == 's'
    &&& ascii_lower(s[i + 2]) == 'c'
    &&& ascii_lower(s[i + 3]) == 'r'
    &&& ascii_lower(s[i + 4]) == 'i'
    &&& ascii_lower(s[i + 5]) == 'p'
    &&& ascii_lower(s[i + 6]) == 't'
}

/// `s` holds a `<script` tag, in any mix of cases.
pub open spec fn opens_script_tag(s: Seq<char>) -> bool {
    exists|i: int| #[trigger] script_at(s, i)
}

/// Text without `<`, between one of the paragraph or big-emoji tags and its
/// closing tag, holds no `<script` tag.
proof fn lemma_wrapped_opens_no_script(pre: Seq<char>, body: Seq<char>, post: Seq<char>)
    requires
        pre == "<p>"@ || pre == "<span class=\"big-emoji\">"@,
        post == "</p>"@ || post == "</span>"@,
        lacks(body, '<'),
    ensures
        !opens_script_tag(pre + body + post),
{
    reveal_strlit("<p>");
    reveal_strlit("<span class=\"big-emoji\">");
    reveal_strlit("</p>");
    reveal_strlit("</span>");
    let s = pre + body + post;
    if opens_script_tag(s) {
        let i = choose|i: int| #[trigger] script_at(s, i);
        if i < pre.len() {
            assert(s[i] == pre[i]);
            assert(i == 0);
            assert(s[2] == pre[2]);
            assert(s[1] == pre[1]);
        } else if i < pre.len() + body.len() {
            assert(s[i] == body[i - pre.len()]);
        } else {
            let k = i - pre.len() - body.len();
            assert(s[i] == post[k]);
            assert(k == 0);
            assert(s[i + 1] == post[1]);
        }
    }
}

/// Without markdown, and with markdown when the message is shown as emojis
/// or as a plain paragraph, the formatted message holds no `<script` tag,
/// whatever the user typed.
pub proof fn lemma_format_text_opens_no_script(text: Seq<char>, should_markdown: bool, emojis: bool)
    ensures
        !should_markdown || !uses_renderer(escape_text_spec(text), emojis)
            ==> !opens_script_tag(format_text_spec(text, should_markdown, emojis)),
{
    lemma_plain_message_is_inert(text, emojis);
    let safe = escape_text_spec(text);
    if !should_markdown {
        let body = plain_body_spec(safe, emojis);
        if format_text_spec(text, false, emojis) == "<p>"@ + body + "</p>"@ {
            lemma_wrapped_opens_no_script("<p>"@, body, "</p>"@);
        } else {
            lemma_wrapped_opens_no_script("<span class=\"big-emoji\">"@, body, "</span>"@);
        }
    } else if !uses_renderer(safe, emojis) {
        lemma_escape_text_inert(text);
        let txt = trim_spec(safe);
        lemma_trim_lacks(safe, '<');
        lemma_replace_escaped_emojis_lacks(txt, '<');
        let r = replace_escaped_emojis_spec(txt);
        if emojis && big_emoji_candidate(r) {
            lemma_wrapped_opens_no_script("<span class=\"big-emoji\">"@, r, "</span>"@);
        } else {
            lemma_wrapped_opens_no_script("<p>"@, txt, "</p>"@);
        }
    }
}

/// Markdown is rendered from the escaped text, never from the raw one.
pub proof fn lemma_markdown_after_escape(text: Seq<char>, emojis: bool)
    ensures
        format_text_spec(text, true, emojis) == markdown_spec(escape_text_spec(text), emojis),
{
}


/// `s` with every character `ch` replaced by `f(ch)`.
pub open spec fn flat_map_chars(s: Seq<char>, f: spec_fn(char) -> Seq<char>) -> Seq<char>
    decreases s.len(),
{
    if s.len() == 0 {
        Seq::<char>::empty()
    } else {
        f(s[0]) + flat_map_chars(s.drop_first(), f)
    }
}

/// A character as HTML: its entity when it is one of `&`, `<`, `>`, `"` and
/// `'`, itself otherwise.
pub open spec fn escape_char(c: char) -> Seq<char> {
    if c == '&' {
        "&amp;"@
    } else if c == '<' {
        "&lt;"@
    } else if c == '>' {
        "&gt;"@
    } else if c == '"' {
        "&quot;"@
    } else if c == '\'' {
        "&#x27;"@
    } else {
        seq![c]
    }
}

/// A character after the first `n` entries of [`HTML_ESCAPES`].
spec fn escape_upto(ch: char, n: nat) -> Seq<char>
    decreases n,
{
    if n == 0 {
        seq![ch]
    } else if seq![ch] == HTML_ESCAPES[n - 1].0@ {
        HTML_ESCAPES[n - 1].1@
    } else {
        escape_upto(ch, (n - 1) as nat)
    }
}

/// Replacing a one-character pattern maps each character on its own.
proof fn lemma_replace_single(s: Seq<char>, c: char, to: Seq<char>)
    ensures
        replace_spec(s, seq![c], to) == flat_map_chars(s, |ch: char| if seq![ch] == seq![c] { to } else { seq![ch] }),
    decreases s.len(),
{
    let f = |ch: char| if seq![ch] == seq![c] { to } else { seq![ch] };
    if s.len() > 0 {
        lemma_replace_single(s.drop_first(), c, to);
        assert(s.skip(1) =~= s.drop_first());
        if s[0] == c {
            assert(s.take(1) =~= seq![c]);
        } else {
            assert(s.take(1) =~= seq![s[0]]);
            assert(seq![s[0]] != seq![c] ) by {
                assert(seq![s[0]][0] != seq![c][0]);
            }
        }
    }
}

/// Mapping each character to itself gives the text back.
proof fn lemma_flat_map_identity(s: Seq<char>)
    ensures
        flat_map_chars(s, |ch: char| seq![ch]) == s,
    decreases s.len(),
{
    if s.len() > 0 {
        lemma_flat_map_identity(s.drop_first());
        assert(s =~= seq![s[0]] + s.drop_first());
    }
}

/// Mapping a concatenation maps each part.
proof fn lemma_flat_map_concat(a: Seq<char>, b: Seq<char>, f: spec_fn(char) -> Seq<char>)
    ensures
        flat_map_chars(a + b, f) == flat_map_chars(a, f) + flat_map_chars(b, f),
    decreases a.len(),
{
    if a.len() == 0 {
        assert(a + b =~= b);
    } else {
        lemma_flat_map_concat(a.drop_first(), b, f);
        assert((a + b).drop_first() =~= a.drop_first() + b);
        assert((a + b)[0] == a[0]);
    }
}

/// Mapping twice is mapping once with the composed map.
proof fn lemma_flat_map_compose(s: Seq<char>, f: spec_fn(char) -> Seq<char>, g: spec_fn(char) -> Seq<char>)
    ensures
        flat_map_chars(flat_map_chars(s, f), g) == flat_map_chars(s, |ch: char| flat_map_chars(f(ch), g)),
    decreases s.len(),
{
    if s.len() > 0 {
        lemma_flat_map_compose(s.drop_first(), f, g);
        lemma_flat_map_concat(f(s[0]), flat_map_chars(s.drop_first(), f), g);
    }
}

/// A map that changes only `c` leaves a text without `c` as it is.
proof fn lemma_flat_map_untouched(t: Seq<char>, c: char, to: Seq<char>)
    requires
        lacks(t, c),
    ensures
        flat_map_chars(t, |ch: char| if seq![ch] == seq![c] { to } else { seq![ch] }) == t,
    decreases t.len(),
{
    if t.len() > 0 {
        let rest = t.drop_first();
        assert forall|i: int| 0 <= i < rest.len() implies #[trigger] rest[i] != c by {
            assert(rest[i] == t[i + 1]);
        }
        lemma_flat_map_untouched(rest, c, to);
        assert(t[0] != c);
        assert(seq![t[0]] != seq![c]) by {
            assert(seq![t[0]][0] != seq![c][0]);
        }
        assert(t =~= seq![t[0]] + rest);
    }
}

/// The characters that the entries of [`HTML_ESCAPES`] replace, in order.
spec fn escaped_char(k: int) -> char {
    if k == 0 {
        '&'
    } else if k == 1 {
        '<'
    } else if k == 2 {
        '>'
    } else if k == 3 {
        '"'
    } else {
        '\''
    }
}

/// The entries of [`HTML_ESCAPES`] replace single, distinct characters, and
/// no entity holds a character that a later entry replaces.
proof fn lemma_escape_table()
    ensures
        forall|k: int| 0 <= k < 5 ==> #[trigger] HTML_ESCAPES[k].0@ == seq![escaped_char(k)],
        forall|k: int, j: int| 0 <= j < k < 5 ==> lacks(#[trigger] HTML_ESCAPES[j].1@, #[trigger] escaped_char(k)),
{
    lemma_html_escapes_entries();
    reveal_strlit("&");
    reveal_strlit("<");
    reveal_strlit(">");
    reveal_strlit("\"");
    reveal_strlit("\'");
    reveal_strlit("&amp;");
    reveal_strlit("&lt;");
    reveal_strlit("&gt;");
    reveal_strlit("&quot;");
    reveal_strlit("&#x27;");
    assert("&"@ =~= seq!['&']);
    assert("<"@ =~= seq!['<']);
    assert(">"@ =~= seq!['>']);
    assert("\""@ =~= seq!['"']);
    assert("\'"@ =~= seq!['\'']);
    assert forall|k: int| 0 <= k < 5 implies #[trigger] HTML_ESCAPES[k].0@ == seq![escaped_char(k)] by {
        assert(k == 0 || k == 1 || k == 2 || k == 3 || k == 4);
    }
    assert forall|k: int, j: int| 0 <= j < k < 5 implies lacks(#[trigger] HTML_ESCAPES[j].1@, #[trigger] escaped_char(k)) by {
        assert(j == 0 || j == 1 || j == 2 || j == 3);
        assert(k == 1 || k == 2 || k == 3 || k == 4);
    }
}

/// A character among none of the first `n` escaped ones is kept; otherwise
/// it is its entity.
proof fn lemma_escape_upto_shape(ch: char, n: nat)
    requires
        n <= 5,
    ensures
        escape_upto(ch, n) == seq![ch] || exists|j: int| 0 <= j < n && escape_upto(ch, n) == #[trigger] HTML_ESCAPES[j].1@,
        (forall|j: int| 0 <= j < n ==> escaped_char(j) != ch) ==> escape_upto(ch, n) == seq![ch],
    decreases n,
{
    lemma_escape_table();
    if n > 0 {
        lemma_escape_upto_shape(ch, (n - 1) as nat);
        if seq![ch] == HTML_ESCAPES[n - 1].0@ {
            assert(seq![ch][0] == seq![escaped_char(n - 1)][0]);
        }
    }
}

/// After the first `n` entries, escaping maps each character on its own.
proof fn lemma_escape_html_per_char(s: Seq<char>, n: nat)
    requires
        n <= 5,
    ensures
        escape_html_spec(s, n) == flat_map_chars(s, |ch: char| escape_upto(ch, n)),
    decreases n,
{
    lemma_escape_table();
    if n == 0 {
        lemma_flat_map_identity(s);
        assert((|ch: char| escape_upto(ch, 0)) =~= (|ch: char| seq![ch]));
    } else {
        let k = n - 1;
        let c = escaped_char(k);
        let to = HTML_ESCAPES[k].1@;
        let prev = |ch: char| escape_upto(ch, (n - 1) as nat);
        let step = |ch: char| if seq![ch] == seq![c] { to } else { seq![ch] };
        lemma_escape_html_per_char(s, (n - 1) as nat);
        lemma_replace_single(flat_map_chars(s, prev), c, to);
        lemma_flat_map_compose(s, prev, step);
        let composed = |ch: char| flat_map_chars(prev(ch), step);
        let next = |ch: char| escape_upto(ch, n);
        assert forall|ch: char| #[trigger] composed(ch) == next(ch) by {
            lemma_escape_upto_shape(ch, (n - 1) as nat);
            if ch == c {
                assert forall|j: int| 0 <= j < n - 1 implies escaped_char(j) != ch by {
                    assert(j == 0 || j == 1 || j == 2 || j == 3);
                    assert(k == 1 || k == 2 || k == 3 || k == 4);
                }
                assert(prev(ch) == seq![ch]);
                assert(flat_map_chars(seq![ch], step) =~= to) by {
                    assert(seq![ch].drop_first() =~= Seq::<char>::empty());
                    assert(flat_map_chars(seq![ch].drop_first(), step) == Seq::<char>::empty());
                    assert(step(ch) == to);
                    assert(flat_map_chars(seq![ch], step) == step(seq![ch][0]) + flat_map_chars(seq![ch].drop_first(), step));
                }
            } else {
                assert(seq![ch] != HTML_ESCAPES[k].0@) by {
                    assert(seq![ch][0] != seq![c][0]);
                }
                if prev(ch) == seq![ch] {
                    lemma_flat_map_untouched(seq![ch], c, to);
                } else {
                    let j = choose|j: int| 0 <= j < n - 1 && escape_upto(ch, (n - 1) as nat) == #[trigger] HTML_ESCAPES[j].1@;
                    assert(lacks(HTML_ESCAPES[j].1@, escaped_char(k)));
                    lemma_flat_map_untouched(prev(ch), c, to);
                }
            }
        }
        assert(composed =~= next);
        assert(HTML_ESCAPES[k].0@ == seq![c]);
    }
}


/// The character replaced by entry `k` becomes that entry's entity.
proof fn lemma_escape_upto_hit(ch: char, n: nat, k: int)
    requires
        0 <= k < n <= 5,
        ch == escaped_char(k),
    ensures
        escape_upto(ch, n) == HTML_ESCAPES[k].1@,
    decreases n,
{
    lemma_escape_table();
    if n - 1 != k {
        assert(seq![ch] != HTML_ESCAPES[n - 1].0@) by {
            assert(seq![ch][0] != seq![escaped_char(n - 1)][0]);
        }
        lemma_escape_upto_hit(ch, (n - 1) as nat, k);
    }
}

/// Escaping with [`HTML_ESCAPES`], one entry after the other, escapes each
/// character exactly once: because `&` is escaped first, no entity that a
/// later entry writes is escaped again.
pub proof fn lemma_escape_is_per_character(s: Seq<char>)
    ensures
        escape_html_spec(s, 5) == flat_map_chars(s, |c: char| escape_char(c)),
{
    lemma_escape_html_per_char(s, 5);
    lemma_escape_table();
    lemma_html_escapes_entries();
    assert forall|ch: char| #[trigger] escape_upto(ch, 5) == escape_char(ch) by {
        lemma_escape_upto_shape(ch, 5);
        if ch == '&' {
            lemma_escape_upto_hit(ch, 5, 0);
        } else if ch == '<' {
            lemma_escape_upto_hit(ch, 5, 1);
        } else if ch == '>' {
            lemma_escape_upto_hit(ch, 5, 2);
        } else if ch == '"' {
            lemma_escape_upto_hit(ch, 5, 3);
        } else if ch == '\'' {
            lemma_escape_upto_hit(ch, 5, 4);
        } else {
            assert forall|j: int| 0 <= j < 5 implies escaped_char(j) != ch by {
                assert(j == 0 || j == 1 || j == 2 || j == 3 || j == 4);
            }
        }
    }
    assert((|ch: char| escape_upto(ch, 5)) =~= (|c: char| escape_char(c)));
}


/// A block of escaped text: a run without `&`, or an entity (`&` followed
/// by no other `&`).
spec fn escaped_block(b: Seq<char>) -> bool {
    ||| b.len() >= 1 && lacks(b, '&')
    ||| b.len() >= 2 && b[0] == '&' && lacks(b.drop_first(), '&')
}

/// The entity that step `k` of unescaping undoes.
spec fn unescape_from(k: int) -> Seq<char> {
    HTML_ESCAPES[unescape_entry(k)].1@
}

/// The character that step `k` of unescaping writes.
spec fn unescape_to(k: int) -> Seq<char> {
    HTML_ESCAPES[unescape_entry(k)].0@
}

/// What the escaped form of `c` has become after the first `n` steps of
/// unescaping.
spec fn unescaped_block(c: char, n: nat) -> Seq<char>
    decreases n,
{
    if n == 0 {
        escape_char(c)
    } else {
        let b = unescaped_block(c, (n - 1) as nat);
        if b == unescape_from(n - 1) {
            unescape_to(n - 1)
        } else {
            b
        }
    }
}

/// A leading run without `&` is kept as it is by replacing an entity.
proof fn lemma_replace_after_plain(b: Seq<char>, r: Seq<char>, p: Seq<char>, t: Seq<char>)
    requires
        p.len() >= 1,
        p[0] == '&',
        lacks(b, '&'),
    ensures
        replace_spec(b + r, p, t) == b + replace_spec(r, p, t),
    decreases b.len(),
{
    let s = b + r;
    if b.len() == 0 {
        assert(s =~= r);
    } else if s.len() < p.len() {
        assert(s =~= b + r);
    } else {
        assert(s[0] == b[0]);
        assert(s.take(p.len() as int)[0] != p[0]);
        let b1 = b.drop_first();
        assert forall|i: int| 0 <= i < b1.len() implies #[trigger] b1[i] != '&' by {
            assert(b1[i] == b[i + 1]);
        }
        assert(s.drop_first() =~= b1 + r);
        lemma_replace_after_plain(b1, r, p, t);
        assert(seq![s[0]] + (b1 + replace_spec(r, p, t)) =~= b + replace_spec(r, p, t));
    }
}

/// Replacing an entity in a block followed by more text replaces the block
/// when it is the entity, keeps it otherwise, and goes on with the rest.
proof fn lemma_replace_block(b: Seq<char>, r: Seq<char>, p: Seq<char>, t: Seq<char>)
    requires
        p.len() >= 2,
        p[0] == '&',
        escaped_block(b),
        b[0] == '&' && b != p ==> b[1] != p[1],
    ensures
        replace_spec(b + r, p, t) == (if b == p { t } else { b }) + replace_spec(r, p, t),
{
    let s = b + r;
    if b == p {
        assert(s.take(p.len() as int) =~= p);
        assert(s.skip(p.len() as int) =~= r);
    } else if lacks(b, '&') {
        lemma_replace_after_plain(b, r, p, t);
    } else {
        if s.len() < p.len() {
            assert(s =~= b + r);
        } else {
            assert(s.take(p.len() as int)[1] != p[1]);
            let b1 = b.drop_first();
            assert(s.drop_first() =~= b1 + r);
            lemma_replace_after_plain(b1, r, p, t);
            assert(seq![s[0]] + (b1 + replace_spec(r, p, t)) =~= b + replace_spec(r, p, t));
        }
    }
}

/// The blocks before step `n` of unescaping are escaped blocks, and an
/// entity that step `n` does not undo differs from its entity in the second
/// character; after all steps each character is itself again.
proof fn lemma_unescaped_blocks(c: char, n: nat)
    requires
        n <= 5,
    ensures
        n < 5 ==> escaped_block(unescaped_block(c, n)),
        n < 5 ==> (unescaped_block(c, n)[0] == '&' && unescaped_block(c, n) != unescape_from(n as int)
            ==> unescaped_block(c, n)[1] != unescape_from(n as int)[1]),
        n < 5 ==> unescape_from(n as int).len() >= 2 && unescape_from(n as int)[0] == '&',
        n == 5 ==> unescaped_block(c, n) == seq![c],
{
    super::emoji::lemma_html_escapes_entries();
    reveal_strlit("&amp;");
    reveal_strlit("&lt;");
    reveal_strlit("&gt;");
    reveal_strlit("&quot;");
    reveal_strlit("&#x27;");
    reveal_strlit("&");
    reveal_strlit("<");
    reveal_strlit(">");
    reveal_strlit("\"");
    reveal_strlit("\'");
    reveal_with_fuel(unescaped_block, 6);
    assert("&lt;"@ != "&amp;"@ && "&gt;"@ != "&amp;"@ && "&quot;"@ != "&amp;"@ && "&#x27;"@ != "&amp;"@) by {
        assert("&lt;"@[1] != "&amp;"@[1]);
        assert("&gt;"@[1] != "&amp;"@[1]);
        assert("&quot;"@[1] != "&amp;"@[1]);
        assert("&#x27;"@[1] != "&amp;"@[1]);
    }
    assert("&gt;"@ != "&lt;"@ && "&quot;"@ != "&lt;"@ && "&#x27;"@ != "&lt;"@) by {
        assert("&gt;"@[1] != "&lt;"@[1]);
        assert("&quot;"@[1] != "&lt;"@[1]);
        assert("&#x27;"@[1] != "&lt;"@[1]);
    }
    assert("&quot;"@ != "&gt;"@ && "&#x27;"@ != "&gt;"@ && "&#x27;"@ != "&quot;"@) by {
        assert("&quot;"@[1] != "&gt;"@[1]);
        assert("&#x27;"@[1] != "&gt;"@[1]);
        assert("&#x27;"@[1] != "&quot;"@[1]);
    }
    if c != '&' && c != '<' && c != '>' && c != '"' && c != '\'' {
        assert(seq![c] != "&lt;"@ && seq![c] != "&gt;"@ && seq![c] != "&quot;"@ && seq![c] != "&#x27;"@ && seq![c] != "&amp;"@) by {
            assert(seq![c].len() != "&lt;"@.len());
            assert(seq![c].len() != "&gt;"@.len());
            assert(seq![c].len() != "&quot;"@.len());
            assert(seq![c].len() != "&#x27;"@.len());
            assert(seq![c].len() != "&amp;"@.len());
        }
        assert(seq![c] =~= seq![c]);
    }
    assert(seq!['&'] =~= "&"@);
    assert(seq!['<'] =~= "<"@);
    assert(seq!['>'] =~= ">"@);
    assert(seq!['"'] =~= "\""@);
    assert(seq!['\''] =~= "\'"@);
}

/// One step of unescaping, on escaped text, undoes its entity block by block.
proof fn lemma_unescape_step(s: Seq<char>, n: nat)
    requires
        n < 5,
    ensures
        replace_spec(flat_map_chars(s, |c: char| unescaped_block(c, n)), unescape_from(n as int), unescape_to(n as int))
            == flat_map_chars(s, |c: char| unescaped_block(c, (n + 1) as nat)),
    decreases s.len(),
{
    if s.len() > 0 {
        let g = |c: char| unescaped_block(c, n);
        let b = unescaped_block(s[0], n);
        lemma_unescaped_blocks(s[0], n);
        lemma_replace_block(b, flat_map_chars(s.drop_first(), g), unescape_from(n as int), unescape_to(n as int));
        lemma_unescape_step(s.drop_first(), n);
    }
}

/// The first `n` steps of unescaping, on escaped text, give each character's
/// block after `n` steps.
proof fn lemma_unescape_steps(s: Seq<char>, n: nat)
    requires
        n <= 5,
    ensures
        unescape_code_spec(flat_map_chars(s, |c: char| escape_char(c)), n) == flat_map_chars(s, |c: char| unescaped_block(c, n)),
    decreases n,
{
    if n == 0 {
        assert((|c: char| escape_char(c)) =~= (|c: char| unescaped_block(c, 0)));
    } else {
        lemma_unescape_steps(s, (n - 1) as nat);
        lemma_unescape_step(s, (n - 1) as nat);
    }
}

/// Unescaping undoes escaping: the text of an inline code span, escaped with
/// [`HTML_ESCAPES`] and unescaped by the markdown rendering (`&amp;` last),
/// is the text as typed; no entity is undone twice.
pub proof fn lemma_unescape_undoes_escape(s: Seq<char>)
    ensures
        unescape_code_spec(escape_html_spec(s, 5), 5) == s,
{
    lemma_escape_is_per_character(s);
    lemma_unescape_steps(s, 5);
    assert forall|c: char| #[trigger] unescaped_block(c, 5) == seq![c] by {
        lemma_unescaped_blocks(c, 5);
    }
    assert((|c: char| unescaped_block(c, 5)) =~= (|ch: char| seq![ch]));
    lemma_flat_map_identity(s);
}

} // verus!
