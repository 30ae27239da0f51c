//! Rendering of message text as markdown, on top of `pulldown_cmark`.
use vstd::prelude::*;
use pulldown_cmark::Event::{Code, End, Html, InlineHtml, SoftBreak, Start, Text};
use pulldown_cmark::{CodeBlockKind, Options, Parser, TagEnd};
use pulldown_cmark::Tag::{CodeBlock, Image, Link, Paragraph};
use super::html::HTML_ESCAPES;
use super::emoji::{emoji_characters_only, emoji_characters_only_spec, lemma_replace_escaped_emojis_lacks, is_only_emojis, is_only_emojis_spec, process_words, process_words_spec, replace_escaped_emojis, replace_escaped_emojis_spec};
use super::emoji::concat_all;
use super::pattern::{
    group, group_or_empty, groups_view, lemma_group_lacks, lemma_part_of_lacks, lemma_splice_lacks, lemma_splice_pieces_lack,
    opt_view, part_of, piece_at, regex_captures, regex_matches, regex_pieces, regex_split, splice,
    splice_prefix, MARKDOWN_PROCESSOR_PATTERN,
};
use super::text::{
    lacks, lemma_lacks_concat, lemma_replace_lacks, lemma_trim_lacks, append_chars, append_str, chars_equal, chars_to_string, replace_chars, replace_spec, str_eq,
    str_to_chars, trim_chars, trim_spec,
};

verus! {

/// What replaces one quote match: the line start (group 1), then `&nbsp;`
/// for a leading space, or the markers (group 2) with `&gt;` turned back
/// into `>`.
pub open spec fn quote_replacement(cap: Seq<Option<Seq<char>>>) -> Seq<char> {
    let start = group_or_empty(group(cap, 1));
    let marker = group_or_empty(group(cap, 2));
    if marker == " "@ {
        start + "&nbsp;"@
    } else {
        start + replace_spec(marker, "&gt;"@, ">"@)
    }
}

/// `text` with block-quote markers restored and leading spaces kept, as the
/// markdown parser is given it.
pub open spec fn quote_replace_spec(text: Seq<char>) -> Seq<char> {
    splice(
        regex_pieces(MARKDOWN_PROCESSOR_PATTERN@, text),
        regex_matches(MARKDOWN_PROCESSOR_PATTERN@, text).map_values(|c: Seq<Option<Seq<char>>>| quote_replacement(c)),
    )
}

/// The characters of group `i` of a match, or none when it did not match.
fn group_text(groups: &Vec<Option<String>>, i: usize) -> (r: Vec<char>)
    ensures
        r@ == group_or_empty(group(groups_view(*groups), i as int)),
{
    if i < groups.len() {
        match &groups[i] {
            Some(s) => str_to_chars(s.as_str()),
            None => Vec::new(),
        }
    } else {
        Vec::new()
    }
}

/// Replaces the matches of [`MARKDOWN_PROCESSOR_PATTERN`] in `text`.
fn quote_replace(text: &str) -> (r: Vec<char>)
    ensures
        r@ == quote_replace_spec(text@),
        lacks(text@, '<') ==> lacks(r@, '<'),
{
    let pieces = regex_split(MARKDOWN_PROCESSOR_PATTERN, text);
    let caps = regex_captures(MARKDOWN_PROCESSOR_PATTERN, text);
    let ghost pv = regex_pieces(MARKDOWN_PROCESSOR_PATTERN@, text@);
    let ghost cv = regex_matches(MARKDOWN_PROCESSOR_PATTERN@, text@);
    let ghost reps = cv.map_values(|c: Seq<Option<Seq<char>>>| quote_replacement(c));
    let mut out: Vec<char> = Vec::new();
    let mut i: usize = 0;
    while i < caps.len()
        invariant
            i <= caps.len(),
            pieces@.map_values(|p: String| p@) == pv,
            caps@.map_values(|c: Vec<Option<String>>| groups_view(c)) == cv,
            reps == cv.map_values(|c: Seq<Option<Seq<char>>>| quote_replacement(c)),
            out@ == splice_prefix(pv, reps, i as nat),
        decreases caps.len() - i,
    {
        if i < pieces.len() {
            let p = str_to_chars(pieces[i].as_str());
            append_chars(&mut out, &p);
        }
        let start = group_text(&caps[i], 1);
        let marker = group_text(&caps[i], 2);
        append_chars(&mut out, &start);
        let space = str_to_chars(" ");
        if chars_equal(&marker, &space) {
            append_str(&mut out, "&nbsp;");
        } else {
            let entity = str_to_chars("&gt;");
            let gt = str_to_chars(">");
            proof {
                reveal_strlit("&gt;");
            }
            let restored = replace_chars(&marker, &entity, &gt);
            append_chars(&mut out, &restored);
        }
        assert(out@ =~= splice_prefix(pv, reps, (i + 1) as nat));
        i = i + 1;
    }
    if i < pieces.len() {
        let p = str_to_chars(pieces[i].as_str());
        append_chars(&mut out, &p);
    }
    assert(out@ =~= quote_replace_spec(text@));
    proof {
        if lacks(text@, '<') {
            let wholes = caps@.map_values(|c: Vec<Option<String>>| group_or_empty(group(groups_view(c), 0)));
            lemma_splice_pieces_lack(pv, wholes, '<');
            reveal_strlit("&nbsp;");
            reveal_strlit("&gt;");
            reveal_strlit(">");
            assert forall|j: int| 0 <= j < reps.len() implies lacks(#[trigger] reps[j], '<') by {
                let c = caps@[j];
                assert(cv[j] == groups_view(c));
                lemma_group_lacks(c, 1, text@, '<');
                lemma_group_lacks(c, 2, text@, '<');
                let start = group_or_empty(group(cv[j], 1));
                let marker = group_or_empty(group(cv[j], 2));
                if marker == " "@ {
                    lemma_lacks_concat(start, "&nbsp;"@, '<');
                } else {
                    lemma_replace_lacks(marker, "&gt;"@, ">"@, '<');
                    lemma_lacks_concat(start, replace_spec(marker, "&gt;"@, ">"@), '<');
                }
            }
            lemma_splice_lacks(pv, reps, '<');
        }
    }
    out
}

/// A markdown event, reduced to what the rendering needs to tell apart.
pub enum MdEvent {
    /// The start of an indented code block.
    IndentedCodeStart,
    /// The start of a fenced code block.
    CodeBlockStart,
    /// The end of a code block.
    CodeBlockEnd,
    /// The start of a link.
    LinkStart,
    /// The start of an image.
    ImageStart,
    /// Raw HTML (a block or inline), with its text.
    Html(String),
    /// The end of a link.
    LinkEnd,
    /// The end of an image.
    ImageEnd,
    /// The start of a paragraph.
    ParagraphStart,
    /// The end of a paragraph.
    ParagraphEnd,
    /// A soft line break.
    SoftBreak,
    /// Text.
    Text(String),
    /// Inline code.
    Code(String),
    /// Any other event.
    Other,
}

/// The mathematical value of an [`MdEvent`].
pub enum MdEventView {
    IndentedCodeStart,
    CodeBlockStart,
    CodeBlockEnd,
    LinkStart,
    ImageStart,
    Html(Seq<char>),
    LinkEnd,
    ImageEnd,
    ParagraphStart,
    ParagraphEnd,
    SoftBreak,
    Text(Seq<char>),
    Code(Seq<char>),
    Other,
}

impl View for MdEvent {
    type V = MdEventView;

    open spec fn view(&self) -> MdEventView {
        match self {
            MdEvent::IndentedCodeStart => MdEventView::IndentedCodeStart,
            MdEvent::CodeBlockStart => MdEventView::CodeBlockStart,
            MdEvent::CodeBlockEnd => MdEventView::CodeBlockEnd,
            MdEvent::LinkStart => MdEventView::LinkStart,
            MdEvent::ImageStart => MdEventView::ImageStart,
            MdEvent::Html(s) => MdEventView::Html(s@),
            MdEvent::LinkEnd => MdEventView::LinkEnd,
            MdEvent::ImageEnd => MdEventView::ImageEnd,
            MdEvent::ParagraphStart => MdEventView::ParagraphStart,
            MdEvent::ParagraphEnd => MdEventView::ParagraphEnd,
            MdEvent::SoftBreak => MdEventView::SoftBreak,
            MdEvent::Text(s) => MdEventView::Text(s@),
            MdEvent::Code(s) => MdEventView::Code(s@),
            MdEvent::Other => MdEventView::Other,
        }
    }
}

/// The events that `pulldown_cmark` (with strikethrough enabled) produces
/// for `text`, in order.
pub uninterp spec fn markdown_events(text: Seq<char>) -> Seq<MdEventView>;

/// The HTML that `pulldown_cmark::html::push_html` writes for each event of
/// `text`, each rendered on its own.
pub uninterp spec fn markdown_events_html(text: Seq<char>) -> Seq<Seq<char>>;

/// Every character of `h` occurs in `t`.
pub open spec fn chars_within(h: Seq<char>, t: Seq<char>) -> bool {
    forall|k: int| 0 <= k < h.len() ==> t.contains(#[trigger] h[k])
}

/// The raw HTML that an event carries is made of characters of `t`.
pub open spec fn html_within(ev: MdEventView, t: Seq<char>) -> bool {
    match ev {
        MdEventView::Html(h) => chars_within(h, t),
        _ => true,
    }
}

/// The source text of each event of `text`: the part of `text` at the
/// event's offset range.
pub uninterp spec fn markdown_event_sources(text: Seq<char>) -> Seq<Seq<char>>;

/// Trusted: runs the same parser over `text` and slices `text` at the offset
/// range of each event with `Parser::into_offset_iter`. The slices are named
/// [`markdown_event_sources`]; each is a part of `text`.
#[verifier::external_body]
fn markdown_sources(text: &str) -> (sources: Vec<String>)
    ensures
        sources@.map_values(|x: String| x@) == markdown_event_sources(text@),
        forall|i: int| 0 <= i < sources@.len() ==> part_of(#[trigger] sources@[i]@, text@),
{
    Parser::new_ext(text, Options::ENABLE_STRIKETHROUGH).into_offset_iter().map(|(_, r)| text[r].to_string()).collect()
}

/// Trusted: runs `pulldown_cmark::Parser::new_ext` with strikethrough
/// enabled over `text` and turns each event into an [`MdEvent`], keeping the
/// text of raw HTML. The events are named [`markdown_events`]. The parser
/// builds the text of raw HTML from slices of `text` (with the markers of
/// enclosing blocks left out), so its characters come from `text`.
#[verifier::external_body]
fn markdown_parse(text: &str) -> (events: Vec<MdEvent>)
    ensures
        events@.map_values(|e: MdEvent| e@) == markdown_events(text@),
        forall|i: int| 0 <= i < events@.len() ==> html_within(#[trigger] events@[i]@, text@),
{
    Parser::new_ext(text, Options::ENABLE_STRIKETHROUGH).map(|e| match e {
        Start(CodeBlock(CodeBlockKind::Indented)) => MdEvent::IndentedCodeStart,
        Start(CodeBlock(_)) => MdEvent::CodeBlockStart,
        Start(Link { .. }) => MdEvent::LinkStart,
        Start(Image { .. }) => MdEvent::ImageStart,
        Html(h) | InlineHtml(h) => MdEvent::Html(h.to_string()),
        Start(Paragraph) => MdEvent::ParagraphStart,
        End(TagEnd::Paragraph) => MdEvent::ParagraphEnd,
        End(TagEnd::CodeBlock) => MdEvent::CodeBlockEnd,
        End(TagEnd::Link) => MdEvent::LinkEnd, End(TagEnd::Image) => MdEvent::ImageEnd,
        Text(t) => MdEvent::Text(t.to_string()),
        Code(t) => MdEvent::Code(t.to_string()),
        SoftBreak => MdEvent::SoftBreak,
        _ => MdEvent::Other,
    }).collect()
}

/// Trusted: runs the same parser over `text` and renders each event alone
/// with `pulldown_cmark::html::push_html`. The renderings are named
/// [`markdown_events_html`].
#[verifier::external_body]
fn markdown_render_each(text: &str) -> (html: Vec<String>)
    ensures
        html@.map_values(|h: String| h@) == markdown_events_html(text@),
{
    let parser = Parser::new_ext(text, Options::ENABLE_STRIKETHROUGH);
    parser.map(|e| {
        let mut h = String::new();
        pulldown_cmark::html::push_html(&mut h, std::iter::once(e));
        h
    }).collect()
}

/// One character as HTML body text: `&`, `<` and `>` become entities.
pub open spec fn escape_body_char(c: char) -> Seq<char> {
    if c == '&' {
        "&amp;"@
    } else if c == '<' {
        "&lt;"@
    } else if c == '>' {
        "&gt;"@
    } else {
        seq![c]
    }
}

/// `s` escaped as HTML body text.
pub open spec fn escape_body_text(s: Seq<char>) -> Seq<char>
    decreases s.len(),
{
    if s.len() == 0 {
        Seq::<char>::empty()
    } else {
        escape_body_text(s.drop_last()) + escape_body_char(s.last())
    }
}

/// The HTML of a text event (`code` false) or of an inline code event
/// (`code` true) holding `t`.
pub open spec fn inline_html(t: Seq<char>, code: bool) -> Seq<char> {
    if code {
        "<code>"@ + escape_body_text(t) + "</code>"@
    } else {
        escape_body_text(t)
    }
}

/// Trusted: renders `Event::Text(t)`, or `Event::Code(t)` when `code` is set,
/// with `pulldown_cmark::html::push_html`. Its source writes the text through
/// `escape_html_body_text`, which replaces `&`, `<` and `>` by entities, and
/// puts inline code between `<code>` and `</code>`.
#[verifier::external_body]
fn render_inline(t: &str, code: bool) -> (h: String)
    ensures
        h@ == inline_html(t@, code),
{
    let mut h = String::new();
    let event = if code { Code(t.to_string().into()) } else { Text(t.to_string().into()) };
    pulldown_cmark::html::push_html(&mut h, std::iter::once(event));
    h
}


/// The flags that the rendering of markdown events carries from one event to
/// the next.
#[derive(Clone, Copy)]
pub struct MdState {
    /// The event is dropped: it lies inside a link or an image, whose source
    /// text was written as it is.
    pub skipping: bool,
    /// Skipping lasts through the end of a link rather than of an image.
    pub in_link: bool,
    /// Inside a paragraph.
    pub in_paragraph: bool,
    /// Inside a fenced code block (from its start event to its end event).
    pub in_code_block: bool,
}

/// The state before the first event.
pub open spec fn md_initial() -> MdState {
    MdState { skipping: false, in_link: false, in_paragraph: false, in_code_block: false }
}

/// The entry of [`HTML_ESCAPES`] that is undone at step `k` of unescaping:
/// `&amp;` comes last, so that an entity is undone only once.
pub open spec fn unescape_entry(k: int) -> int {
    if k < 4 {
        k + 1
    } else {
        0
    }
}

/// Inline code text with the entities of [`HTML_ESCAPES`] turned back into
/// their characters, one entity after the other (the first `n` steps), with
/// `&amp;` undone last.
pub open spec fn unescape_code_spec(t: Seq<char>, n: nat) -> Seq<char>
    decreases n,
{
    if n == 0 {
        t
    } else {
        replace_spec(
            unescape_code_spec(t, (n - 1) as nat),
            HTML_ESCAPES[unescape_entry(n - 1)].1@,
            HTML_ESCAPES[unescape_entry(n - 1)].0@,
        )
    }
}

/// `s` with `<` and `>` written as entities.
pub open spec fn escape_angles(s: Seq<char>) -> Seq<char> {
    replace_spec(replace_spec(s, "<"@, "&lt;"@), ">"@, "&gt;"@)
}

/// What a text event holding `t` writes in state `st`: outside code blocks
/// emoticons become emojis (when `emojis`) and the text is escaped; inside
/// a code block emoticons are left as typed, HTML entities are undone word by
/// word and the text is written with only `<` and `>` escaped; inside a
/// paragraph blank lines become `<br/>`.
pub open spec fn text_event_html(t: Seq<char>, st: MdState, emojis: bool) -> Seq<char> {
    let t1 = if st.in_code_block {
        process_words_spec(t, true, false)
    } else if emojis {
        process_words_spec(t, false, true)
    } else {
        t
    };
    let t2 = if st.in_paragraph {
        replace_spec(t1, "\n\n"@, "<br/>"@)
    } else {
        t1
    };
    if st.in_code_block {
        escape_angles(t2)
    } else {
        inline_html(t2, false)
    }
}

/// One step of the rendering: the state after the event and the HTML it
/// writes. `html` is what `pulldown_cmark` itself renders for the event and
/// `source` its source text; a link or an image is written as its source
/// text and everything up to its end is dropped. A
/// fenced code block is entered at its start and left at its end.
pub open spec fn md_step(st: MdState, ev: MdEventView, html: Seq<char>, source: Seq<char>, emojis: bool) -> (MdState, Seq<char>) {
    if st.skipping {
        let done = if st.in_link {
            ev is LinkEnd
        } else {
            ev is ImageEnd
        };
        (MdState { skipping: !done, ..st }, Seq::<char>::empty())
    } else {
        match ev {
            MdEventView::IndentedCodeStart => (st, "</p>\n<p> </p><p>"@),
            MdEventView::Code(t) => (st, inline_html(unescape_code_spec(t, 5), true)),
            MdEventView::CodeBlockEnd => (MdState { in_code_block: false, ..st }, Seq::<char>::empty()),
            MdEventView::SoftBreak => (
                st,
                if st.in_paragraph {
                    "</p>\n<p>"@
                } else {
                    Seq::<char>::empty()
                },
            ),
            MdEventView::ParagraphStart => (MdState { in_paragraph: true, ..st }, "<p>"@),
            MdEventView::ParagraphEnd => (MdState { in_paragraph: false, ..st }, Seq::<char>::empty()),
            MdEventView::LinkStart => (MdState { skipping: true, in_link: true, ..st }, source),
            MdEventView::ImageStart => (MdState { skipping: true, in_link: false, ..st }, source),
            MdEventView::Html(h) => (st, h),
            MdEventView::Text(t) => (st, text_event_html(t, st, emojis)),
            MdEventView::CodeBlockStart => (MdState { in_code_block: true, ..st }, html),
            _ => (st, html),
        }
    }
}

/// The state and HTML after the first `n` events.
pub open spec fn md_run(events: Seq<MdEventView>, htmls: Seq<Seq<char>>, sources: Seq<Seq<char>>, emojis: bool, n: nat) -> (MdState, Seq<char>)
    decreases n,
{
    if n == 0 {
        (md_initial(), Seq::<char>::empty())
    } else {
        let prev = md_run(events, htmls, sources, emojis, (n - 1) as nat);
        let step = md_step(prev.0, events[n - 1], piece_at(htmls, n - 1), piece_at(sources, n - 1), emojis);
        (step.0, prev.1 + step.1)
    }
}

/// What each of the first `n` events writes.
pub open spec fn md_pieces(events: Seq<MdEventView>, htmls: Seq<Seq<char>>, sources: Seq<Seq<char>>, emojis: bool, n: nat) -> Seq<Seq<char>>
    decreases n,
{
    if n == 0 {
        Seq::<Seq<char>>::empty()
    } else {
        let st = md_run(events, htmls, sources, emojis, (n - 1) as nat).0;
        md_pieces(events, htmls, sources, emojis, (n - 1) as nat).push(
            md_step(st, events[n - 1], piece_at(htmls, n - 1), piece_at(sources, n - 1), emojis).1,
        )
    }
}

/// The fixed markup that the rendering writes around paragraphs.
pub open spec fn md_markup(p: Seq<char>) -> bool {
    p == "<p>"@ || p == "</p>\n<p>"@ || p == "</p>\n<p> </p><p>"@
}

/// An event whose HTML is what `pulldown_cmark` renders for it: every event
/// but text, inline code, link and image starts and raw HTML. These are
/// start and end tags, rules and breaks; of the message's text they carry
/// only a fenced code block's language and an ordered list's start number,
/// which the parser writes into its own markup.
pub open spec fn rendered_by_parser(ev: MdEventView) -> bool {
    !(ev is Text || ev is Code || ev is LinkStart || ev is ImageStart || ev is Html)
}

/// What the rendering writes for one event opens no tag with text of the
/// message: it holds no `<`, or it is fixed markup, or inline code around
/// text without `<`, or the parser's own rendering of one of the events of
/// [`rendered_by_parser`].
pub open spec fn md_piece_safe(ev: MdEventView, html: Seq<char>, p: Seq<char>) -> bool {
    ||| lacks(p, '<')
    ||| md_markup(p)
    ||| exists|b: Seq<char>| lacks(b, '<') && p == "<code>"@ + b + "</code>"@
    ||| p == html && rendered_by_parser(ev)
}

/// The text that a raw HTML event carries lacks `c`.
pub open spec fn carried_text_lacks(ev: MdEventView, c: char) -> bool {
    match ev {
        MdEventView::Html(h) => lacks(h, c),
        _ => true,
    }
}

/// The rendering of `q` is what its events write, one after the other,
/// and nothing any event writes opens a tag with text of the message.
pub open spec fn md_render_opens_no_user_tag(q: Seq<char>, emojis: bool) -> bool {
    let evs = markdown_events(q);
    let hs = markdown_events_html(q);
    let ps = md_pieces(evs, hs, markdown_event_sources(q), emojis, evs.len());
    &&& render_markdown_spec(q, emojis) == concat_all(ps) + "\n"@
    &&& ps.len() == evs.len()
    &&& forall|i: int| 0 <= i < ps.len() ==> md_piece_safe(evs[i], piece_at(hs, i), #[trigger] ps[i])
}

/// Text escaped as HTML body text holds no `<`.
proof fn lemma_escape_body_text_lacks(s: Seq<char>)
    ensures
        lacks(escape_body_text(s), '<'),
    decreases s.len(),
{
    reveal_strlit("&amp;");
    reveal_strlit("&lt;");
    reveal_strlit("&gt;");
    if s.len() > 0 {
        lemma_escape_body_text_lacks(s.drop_last());
        let c = s.last();
        assert(lacks(escape_body_char(c), '<'));
        lemma_lacks_concat(escape_body_text(s.drop_last()), escape_body_char(c), '<');
    }
}

/// `<` and `>` written as entities leave no `<`.
proof fn lemma_escape_angles_lacks(s: Seq<char>)
    ensures
        lacks(escape_angles(s), '<'),
{
    reveal_strlit("<");
    reveal_strlit(">");
    reveal_strlit("&lt;");
    reveal_strlit("&gt;");
    assert("<"@ =~= seq!['<']);
    lemma_replace_lacks(s, "<"@, "&lt;"@, '<');
    let a = replace_spec(s, "<"@, "&lt;"@);
    assert(">"@[0] != seq!['<'][0]);
    lemma_replace_lacks(a, ">"@, "&gt;"@, '<');
}

/// One event writes nothing that opens a tag with text of the message.
proof fn lemma_md_step_safe(st: MdState, ev: MdEventView, html: Seq<char>, source: Seq<char>, emojis: bool)
    requires
        carried_text_lacks(ev, '<'),
        lacks(source, '<'),
    ensures
        md_piece_safe(ev, html, md_step(st, ev, html, source, emojis).1),
{
    let p = md_step(st, ev, html, source, emojis).1;
    assert(lacks(Seq::<char>::empty(), '<'));
    if !st.skipping {
        match ev {
            MdEventView::Code(t) => {
                let b = escape_body_text(unescape_code_spec(t, 5));
                lemma_escape_body_text_lacks(unescape_code_spec(t, 5));
                assert(p == "<code>"@ + b + "</code>"@);
            },
            MdEventView::Text(t) => {
                let t1 = if st.in_code_block {
                    process_words_spec(t, true, false)
                } else if emojis {
                    process_words_spec(t, false, true)
                } else {
                    t
                };
                let t2 = if st.in_paragraph {
                    replace_spec(t1, "\n\n"@, "<br/>"@)
                } else {
                    t1
                };
                if st.in_code_block {
                    lemma_escape_angles_lacks(t2);
                } else {
                    lemma_escape_body_text_lacks(t2);
                }
            },
            _ => {},
        }
    }
}

/// What the first `n` events write, one after the other, is the rendering so
/// far, and none of it opens a tag with text of the message.
proof fn lemma_md_pieces(events: Seq<MdEventView>, htmls: Seq<Seq<char>>, sources: Seq<Seq<char>>, emojis: bool, n: nat)
    requires
        n <= events.len(),
        forall|i: int| 0 <= i < events.len() ==> carried_text_lacks(#[trigger] events[i], '<'),
        forall|i: int| 0 <= i < events.len() ==> lacks(#[trigger] piece_at(sources, i), '<'),
    ensures
        md_pieces(events, htmls, sources, emojis, n).len() == n,
        md_run(events, htmls, sources, emojis, n).1 == concat_all(md_pieces(events, htmls, sources, emojis, n)),
        forall|i: int| 0 <= i < n ==> md_piece_safe(events[i], piece_at(htmls, i), #[trigger] md_pieces(events, htmls, sources, emojis, n)[i]),
    decreases n,
{
    if n > 0 {
        let m = (n - 1) as nat;
        lemma_md_pieces(events, htmls, sources, emojis, m);
        let prev = md_pieces(events, htmls, sources, emojis, m);
        let ps = md_pieces(events, htmls, sources, emojis, n);
        let st = md_run(events, htmls, sources, emojis, m).0;
        assert(carried_text_lacks(events[n - 1], '<'));
        lemma_md_step_safe(st, events[n - 1], piece_at(htmls, n - 1), piece_at(sources, n - 1), emojis);
        assert(ps.drop_last() =~= prev);
        assert forall|i: int| 0 <= i < n implies md_piece_safe(events[i], piece_at(htmls, i), #[trigger] ps[i]) by {
            if i < m {
                assert(ps[i] == prev[i]);
            }
        }
    }
}

/// Inside a paragraph (and outside a link or an image), a soft line break
/// closes the paragraph and opens a new one: the rendering so far is
/// extended by exactly `</p>\n<p>`, so the text on the two sides of the
/// break is never run together, and the state is unchanged. Outside a
/// paragraph a soft break writes nothing.
pub proof fn lemma_soft_break_closes_paragraph(
    events: Seq<MdEventView>,
    htmls: Seq<Seq<char>>,
    sources: Seq<Seq<char>>,
    emojis: bool,
    n: nat,
)
    requires
        n < events.len(),
        events[n as int] is SoftBreak,
        !md_run(events, htmls, sources, emojis, n).0.skipping,
    ensures
        md_run(events, htmls, sources, emojis, n + 1).0 == md_run(events, htmls, sources, emojis, n).0,
        md_run(events, htmls, sources, emojis, n).0.in_paragraph ==> md_run(events, htmls, sources, emojis, n + 1).1
            == md_run(events, htmls, sources, emojis, n).1 + "</p>\n<p>"@,
        !md_run(events, htmls, sources, emojis, n).0.in_paragraph ==> md_run(events, htmls, sources, emojis, n + 1).1
            == md_run(events, htmls, sources, emojis, n).1,
{
    assert(md_run(events, htmls, sources, emojis, n).1 + Seq::<char>::empty() =~= md_run(events, htmls, sources, emojis, n).1);
}

/// A block-quote marker as escaped text holds: `&gt;` for each `true` of
/// `bs` and a space for each `false`.
pub open spec fn escaped_marker(bs: Seq<bool>) -> Seq<char>
    decreases bs.len(),
{
    if bs.len() == 0 {
        Seq::<char>::empty()
    } else {
        (if bs[0] {
            "&gt;"@
        } else {
            " "@
        }) + escaped_marker(bs.drop_first())
    }
}

/// The same marker as the markdown parser reads it: `>` for each `true` of
/// `bs` and a space for each `false`.
pub open spec fn parser_marker(bs: Seq<bool>) -> Seq<char>
    decreases bs.len(),
{
    if bs.len() == 0 {
        Seq::<char>::empty()
    } else {
        (if bs[0] {
            seq!['>']
        } else {
            seq![' ']
        }) + parser_marker(bs.drop_first())
    }
}

/// Turning `&gt;` back into `>` maps an escaped marker to the marker the
/// parser reads.
proof fn lemma_restore_marker(bs: Seq<bool>)
    ensures
        replace_spec(escaped_marker(bs), "&gt;"@, ">"@) == parser_marker(bs),
    decreases bs.len(),
{
    reveal_strlit("&gt;");
    reveal_strlit(">");
    reveal_strlit(" ");
    if bs.len() > 0 {
        let rest = escaped_marker(bs.drop_first());
        let s = escaped_marker(bs);
        lemma_restore_marker(bs.drop_first());
        if bs[0] {
            assert(s.take(4) =~= "&gt;"@);
            assert(s.skip(4) =~= rest);
            assert(">"@ =~= seq!['>']);
        } else {
            assert(s[0] == ' ');
            if s.len() < 4 {
                assert(rest.len() < 4);
                assert(replace_spec(rest, "&gt;"@, ">"@) == rest);
                assert(s =~= seq![' '] + rest);
            } else {
                assert(s.take(4)[0] != "&gt;"@[0]);
                assert(s.drop_first() =~= rest);
                assert(s =~= seq![' '] + rest);
            }
        }
    }
}

/// A block-quote marker at the start of the text or of a line, escaped as
/// `&gt;` (any number of them, spaces between), reaches the markdown parser
/// as `>`: the line start is kept and each `&gt;` becomes `>`. A lone
/// leading space becomes `&nbsp;` instead.
pub proof fn lemma_quote_marker_reaches_parser(cap: Seq<Option<Seq<char>>>, bs: Seq<bool>)
    requires
        group(cap, 2) == Some(escaped_marker(bs)),
    ensures
        escaped_marker(bs) != " "@ ==> quote_replacement(cap) == group_or_empty(group(cap, 1)) + parser_marker(bs),
        escaped_marker(bs) == " "@ ==> quote_replacement(cap) == group_or_empty(group(cap, 1)) + "&nbsp;"@,
{
    lemma_restore_marker(bs);
}

/// The HTML rendered for markdown text, as the parser sees it.
pub open spec fn render_markdown_spec(text: Seq<char>, emojis: bool) -> Seq<char> {
    md_run(
        markdown_events(text),
        markdown_events_html(text),
        markdown_event_sources(text),
        emojis,
        markdown_events(text).len(),
    ).1 + "\n"@
}

/// The entity of each entry of [`HTML_ESCAPES`] is not empty.
proof fn lemma_html_escape_entities_nonempty()
    ensures
        forall|i: int| 0 <= i < 5 ==> #[trigger] HTML_ESCAPES[i].1@.len() > 0,
{
    super::emoji::lemma_html_escapes_entries();
    reveal_strlit("&amp;");
    reveal_strlit("&lt;");
    reveal_strlit("&gt;");
    reveal_strlit("&quot;");
    reveal_strlit("&#x27;");
    assert forall|i: int| 0 <= i < 5 implies #[trigger] HTML_ESCAPES[i].1@.len() > 0 by {
        assert(i == 0 || i == 1 || i == 2 || i == 3 || i == 4);
    }
}

/// Undoes the HTML entities of [`HTML_ESCAPES`] in inline code, one entity
/// after the other, `&amp;` last.
fn unescape_code(t: &str) -> (r: Vec<char>)
    ensures
        r@ == unescape_code_spec(t@, 5),
{
    proof {
        lemma_html_escape_entities_nonempty();
    }
    let mut cur = str_to_chars(t);
    let mut i: usize = 0;
    while i < 5
        invariant
            i <= 5,
            cur@ == unescape_code_spec(t@, i as nat),
            forall|j: int| 0 <= j < 5 ==> #[trigger] HTML_ESCAPES[j].1@.len() > 0,
        decreases 5 - i,
    {
        let k: usize = if i < 4 {
            i + 1
        } else {
            0
        };
        let (plain, entity) = HTML_ESCAPES[k];
        let from = str_to_chars(entity);
        let to = str_to_chars(plain);
        cur = replace_chars(&cur, &from, &to);
        i = i + 1;
    }
    cur
}

/// Writes `<` and `>` as entities.
fn escape_angles_exec(s: &Vec<char>) -> (r: Vec<char>)
    ensures
        r@ == escape_angles(s@),
{
    let lt = str_to_chars("<");
    let lt_entity = str_to_chars("&lt;");
    let gt = str_to_chars(">");
    let gt_entity = str_to_chars("&gt;");
    proof {
        reveal_strlit("<");
        reveal_strlit(">");
    }
    let a = replace_chars(s, &lt, &lt_entity);
    replace_chars(&a, &gt, &gt_entity)
}

/// Writes one event; returns the state after it.
fn md_step_exec(st: MdState, ev: &MdEvent, html: &Vec<char>, source: &Vec<char>, emojis: bool, out: &mut Vec<char>) -> (next: MdState)
    ensures
        next == md_step(st, ev@, html@, source@, emojis).0,
        final(out)@ == old(out)@ + md_step(st, ev@, html@, source@, emojis).1,
{
    if st.skipping {
        let done = if st.in_link {
            matches!(ev, MdEvent::LinkEnd)
        } else {
            matches!(ev, MdEvent::ImageEnd)
        };
        assert(final(out)@ =~= old(out)@ + Seq::<char>::empty());
        return MdState { skipping: !done, ..st };
    }
    match ev {
        MdEvent::IndentedCodeStart => {
            append_str(out, "</p>\n<p> </p><p>");
            st
        },
        MdEvent::Code(t) => {
            let txt = unescape_code(t.as_str());
            let h = render_inline(chars_to_string(&txt).as_str(), true);
            append_str(out, h.as_str());
            st
        },
        MdEvent::CodeBlockEnd => {
            assert(final(out)@ =~= old(out)@ + Seq::<char>::empty());
            MdState { in_code_block: false, ..st }
        },
        MdEvent::SoftBreak => {
            if st.in_paragraph {
                append_str(out, "</p>\n<p>");
            } else {
                assert(final(out)@ =~= old(out)@ + Seq::<char>::empty());
            }
            st
        },
        MdEvent::ParagraphStart => {
            append_str(out, "<p>");
            MdState { in_paragraph: true, ..st }
        },
        MdEvent::ParagraphEnd => {
            assert(final(out)@ =~= old(out)@ + Seq::<char>::empty());
            MdState { in_paragraph: false, ..st }
        },
        MdEvent::LinkStart => {
            append_chars(out, source);
            MdState { skipping: true, in_link: true, ..st }
        },
        MdEvent::ImageStart => {
            append_chars(out, source);
            MdState { skipping: true, in_link: false, ..st }
        },
        MdEvent::Html(h) => {
            append_str(out, h.as_str());
            st
        },
        MdEvent::Text(t) => {
            let t1 = if st.in_code_block {
                process_words(t.as_str(), true, false)
            } else if emojis {
                process_words(t.as_str(), false, true)
            } else {
                t.clone()
            };
            let t1c = str_to_chars(t1.as_str());
            let t2 = if st.in_paragraph {
                let blank = str_to_chars("\n\n");
                let br = str_to_chars("<br/>");
                proof {
                    reveal_strlit("\n\n");
                }
                replace_chars(&t1c, &blank, &br)
            } else {
                t1c
            };
            if st.in_code_block {
                let escaped = escape_angles_exec(&t2);
                append_chars(out, &escaped);
            } else {
                let h = render_inline(chars_to_string(&t2).as_str(), false);
                append_str(out, h.as_str());
            }
            st
        },
        MdEvent::CodeBlockStart => {
            append_chars(out, html);
            MdState { in_code_block: true, ..st }
        },
        _ => {
            append_chars(out, html);
            st
        },
    }
}

/// Renders the events of markdown text; `pulldown_cmark` renders the events
/// that need no special treatment.
fn render_markdown(text: &str, emojis: bool) -> (r: Vec<char>)
    ensures
        r@ == render_markdown_spec(text@, emojis),
        lacks(text@, '<') ==> md_render_opens_no_user_tag(text@, emojis),
{
    let events = markdown_parse(text);
    let htmls = markdown_render_each(text);
    let sources = markdown_sources(text);
    let ghost ev = markdown_events(text@);
    let ghost hv = markdown_events_html(text@);
    let ghost sv = markdown_event_sources(text@);
    let mut out: Vec<char> = Vec::new();
    let mut st = MdState { skipping: false, in_link: false, in_paragraph: false, in_code_block: false };
    let mut i: usize = 0;
    while i < events.len()
        invariant
            i <= events.len(),
            events@.map_values(|e: MdEvent| e@) == ev,
            htmls@.map_values(|h: String| h@) == hv,
            sources@.map_values(|x: String| x@) == sv,
            st == md_run(ev, hv, sv, emojis, i as nat).0,
            out@ == md_run(ev, hv, sv, emojis, i as nat).1,
        decreases events.len() - i,
    {
        let html = if i < htmls.len() {
            str_to_chars(htmls[i].as_str())
        } else {
            Vec::new()
        };
        assert(html@ == piece_at(hv, i as int));
        let source = if i < sources.len() {
            str_to_chars(sources[i].as_str())
        } else {
            Vec::new()
        };
        assert(source@ == piece_at(sv, i as int));
        st = md_step_exec(st, &events[i], &html, &source, emojis, &mut out);
        i = i + 1;
    }
    append_str(&mut out, "\n");
    proof {
        if lacks(text@, '<') {
            assert forall|k: int| 0 <= k < ev.len() implies carried_text_lacks(#[trigger] ev[k], '<') by {
                assert(ev[k] == events@[k]@);
                assert(html_within(events@[k]@, text@));
                match ev[k] {
                    MdEventView::Html(h) => {
                        assert forall|m: int| 0 <= m < h.len() implies #[trigger] h[m] != '<' by {
                            assert(text@.contains(h[m]));
                        }
                    },
                    _ => {},
                }
            }
            assert forall|k: int| 0 <= k < ev.len() implies lacks(#[trigger] piece_at(sv, k), '<') by {
                if 0 <= k < sv.len() {
                    assert(sv[k] == sources@[k]@);
                    lemma_part_of_lacks(sources@[k]@, text@, '<');
                }
            }
            lemma_md_pieces(ev, hv, sv, emojis, ev.len());
        }
    }
    out
}


/// Whether a character is alphanumeric in the Unicode sense.
pub uninterp spec fn alphanumeric(c: char) -> bool;

/// Trusted: calls `char::is_alphanumeric`, which the standard library
/// documents as testing the Unicode `Alphabetic` and `Numeric` properties;
/// the result is named [`alphanumeric`].
#[verifier::external_body]
fn char_is_alphanumeric(c: char) -> (r: bool)
    ensures
        r == alphanumeric(c),
{
    c.is_alphanumeric()
}

/// Every character of `s` is alphanumeric.
pub open spec fn all_alphanumeric(s: Seq<char>) -> bool {
    forall|k: int| 0 <= k < s.len() ==> alphanumeric(#[trigger] s[k])
}

/// Whether every character of `s` is alphanumeric.
fn all_alphanumeric_exec(s: &Vec<char>) -> (r: bool)
    ensures
        r == all_alphanumeric(s@),
{
    let mut k: usize = 0;
    while k < s.len()
        invariant
            k <= s.len(),
            forall|m: int| 0 <= m < k ==> alphanumeric(#[trigger] s@[m]),
        decreases s.len() - k,
    {
        if !char_is_alphanumeric(s[k]) {
            return false;
        }
        k = k + 1;
    }
    true
}

/// A message, once its emoticons are replaced, that is shown as big emojis:
/// not only alphanumeric, none of `#`, `*`, `##`, `**` and `-` (which the
/// emoji tables count as emojis), and made of emojis only.
pub open spec fn big_emoji_candidate(r: Seq<char>) -> bool {
    &&& !all_alphanumeric(r)
    &&& r != "#"@
    &&& r != "*"@
    &&& r != "##"@
    &&& r != "**"@
    &&& r != "-"@
    &&& is_only_emojis_spec(r)
}

/// What [`markdown`] returns: with `emojis`, a message that turns into emojis
/// only (emoticons, escaped or not, replaced) is shown big, and one that is
/// made of emoji-table characters (digits, `#` and `*` among them) or is `-`
/// is a plain paragraph; otherwise the trimmed text is rendered as markdown.
pub open spec fn markdown_spec(text: Seq<char>, emojis: bool) -> Seq<char> {
    let txt = trim_spec(text);
    let r = replace_escaped_emojis_spec(txt);
    if emojis && big_emoji_candidate(r) {
        "<span class=\"big-emoji\">"@ + r + "</span>"@
    } else if emojis && (emoji_characters_only_spec(txt) || r == "-"@) {
        "<p>"@ + txt + "</p>"@
    } else {
        render_markdown_spec(quote_replace_spec(txt), emojis)
    }
}

/// [`markdown`] hands the text to the markdown renderer (the message is not
/// shown as emojis).
pub open spec fn uses_renderer(text: Seq<char>, emojis: bool) -> bool {
    let txt = trim_spec(text);
    let r = replace_escaped_emojis_spec(txt);
    !(emojis && big_emoji_candidate(r)) && !(emojis && (emoji_characters_only_spec(txt) || r == "-"@))
}

/// No `<` of [`markdown`]'s output comes from the text: the trimmed text and
/// its emoji form hold none, and when the text is rendered as markdown every
/// `<` belongs to the renderer's own markup (see [`md_render_opens_no_user_tag`]).
pub open spec fn markdown_opens_no_user_tag(text: Seq<char>, emojis: bool) -> bool {
    let txt = trim_spec(text);
    &&& lacks(txt, '<')
    &&& lacks(replace_escaped_emojis_spec(txt), '<')
    &&& uses_renderer(text, emojis) ==> md_render_opens_no_user_tag(quote_replace_spec(txt), emojis)
}

/// Renders message text as HTML with markdown; with `emojis`, ASCII
/// emoticons become emojis and emoji-only messages are shown big. Text
/// without `<` can open no tag in the output.
pub fn markdown(text: &str, emojis: bool) -> (res: String)
    ensures
        res@ == markdown_spec(text@, emojis),
        lacks(text@, '<') ==> markdown_opens_no_user_tag(text@, emojis),
{
    proof {
        if lacks(text@, '<') {
            lemma_trim_lacks(text@, '<');
            lemma_replace_escaped_emojis_lacks(trim_spec(text@), '<');
        }
    }
    let txt_chars = trim_chars(&str_to_chars(text));
    let txt = chars_to_string(&txt_chars);
    if emojis {
        let r = replace_escaped_emojis(txt.as_str());
        let rc = str_to_chars(r.as_str());
        if !all_alphanumeric_exec(&rc) && !str_eq(r.as_str(), "#") && !str_eq(r.as_str(), "*")
            && !str_eq(r.as_str(), "##") && !str_eq(r.as_str(), "**") && !str_eq(r.as_str(), "-")
            && is_only_emojis(r.as_str()) {
            let mut out: Vec<char> = Vec::new();
            append_str(&mut out, "<span class=\"big-emoji\">");
            append_chars(&mut out, &rc);
            append_str(&mut out, "</span>");
            return chars_to_string(&out);
        } else if emoji_characters_only(txt.as_str()) || str_eq(r.as_str(), "-") {
            let mut out: Vec<char> = Vec::new();
            append_str(&mut out, "<p>");
            append_chars(&mut out, &txt_chars);
            append_str(&mut out, "</p>");
            return chars_to_string(&out);
        }
    }
    let quoted = quote_replace(txt.as_str());
    let html = render_markdown(chars_to_string(&quoted).as_str(), emojis);
    chars_to_string(&html)
}

} // verus!
