//! ASCII emoticons, the word-by-word string processor and the detection of
//! messages made only of emojis.
use vstd::prelude::*;
use super::html::HTML_ESCAPES;
use unic_emoji_char::{is_emoji, is_emoji_component, is_emoji_modifier, is_emoji_modifier_base, is_emoji_presentation};
use super::text::{lemma_trim_keeps, lemma_trim_lacks, trim_end_spec, trim_start_spec, lacks, lemma_lacks_concat, chars_to_string, char_is_whitespace, push_char, str_eq, str_to_chars, trim_chars, trim_spec, white_space};

verus! {

/// The words of `s`, split at every space (`' '`); consecutive spaces give
/// empty words, and a string without spaces is a single word.
pub open spec fn split_words(s: Seq<char>) -> Seq<Seq<char>>
    decreases s.len(),
{
    if s.len() == 0 {
        seq![Seq::<char>::empty()]
    } else {
        let w = split_words(s.drop_last());
        if s.last() == ' ' {
            w.push(Seq::<char>::empty())
        } else {
            w.update(w.len() - 1, w.last().push(s.last()))
        }
    }
}

/// Every word of `ws` followed by a space.
pub open spec fn join_words_trailing(ws: Seq<Seq<char>>) -> Seq<char>
    decreases ws.len(),
{
    if ws.len() == 0 {
        Seq::<char>::empty()
    } else {
        join_words_trailing(ws.drop_last()) + ws.last() + seq![' ']
    }
}

/// The words of `ws` joined by single spaces.
pub open spec fn join_words(ws: Seq<Seq<char>>) -> Seq<char> {
    if ws.len() == 0 {
        Seq::<char>::empty()
    } else {
        join_words_trailing(ws.drop_last()) + ws.last()
    }
}

/// `processor`, called on a string whose characters are `word`, can return a
/// string whose characters are `out`.
pub open spec fn processor_gives<F: Fn(&str) -> &str>(processor: F, word: Seq<char>, out: Seq<char>) -> bool {
    exists|a: &str, r: &str| a@ == word && r@ == out && #[trigger] call_ensures(processor, (a,), r)
}

/// `res` is `input` split into words at every space, each word handed to
/// `processor`, and what it returned joined with single spaces.
pub open spec fn processed_by<F: Fn(&str) -> &str>(processor: F, input: Seq<char>, res: Seq<char>) -> bool {
    exists|outs: Seq<Seq<char>>|
        {
            &&& outs.len() == split_words(input).len()
            &&& forall|j: int|
                0 <= j < outs.len() ==> #[trigger] processor_gives(processor, split_words(input)[j], outs[j])
            &&& res == join_words(outs)
        }
}

/// A string always splits into at least one word.
pub proof fn lemma_split_words_nonempty(s: Seq<char>)
    ensures
        split_words(s).len() >= 1,
    decreases s.len(),
{
    if s.len() > 0 {
        lemma_split_words_nonempty(s.drop_last());
    }
}

/// Splitting a string into words and joining them back by spaces gives the
/// string back.
pub proof fn lemma_join_split_words(s: Seq<char>)
    ensures
        join_words(split_words(s)) == s,
    decreases s.len(),
{
    if s.len() > 0 {
        let p = s.drop_last();
        lemma_join_split_words(p);
        lemma_split_words_nonempty(p);
        let w = split_words(p);
        if s.last() == ' ' {
            let sw = w.push(Seq::<char>::empty());
            assert(sw.drop_last() =~= w);
            assert(join_words_trailing(w) =~= join_words(w) + seq![' ']);
            assert(join_words(sw) =~= s);
        } else {
            let sw = w.update(w.len() - 1, w.last().push(s.last()));
            assert(sw.drop_last() =~= w.drop_last());
            assert(sw.last() == w.last().push(s.last()));
            assert(join_words(w) == join_words_trailing(w.drop_last()) + w.last());
            assert(s =~= p.push(s.last()));
            assert(join_words(sw) =~= s);
        }
    }
}

/// Splits `input` into words at every space, hands each word to `processor`
/// and joins what it returns with single spaces.
pub fn process_string<F>(input: &str, processor: F) -> (res: String)
    where
        F: Fn(&str) -> &str,
    requires
        forall|w: &str| #[trigger] processor.requires((w,)),
    ensures
        processed_by(processor, input@, res@),
{
    let chars = str_to_chars(input);
    let mut builder = String::new();
    let mut stack = String::new();
    let ghost mut outs: Seq<Seq<char>> = Seq::empty();
    let mut i: usize = 0;
    proof {
        assert(chars@.take(0) =~= Seq::<char>::empty());
    }
    while i < chars.len()
        invariant
            chars@ == input@,
            i <= chars.len(),
            forall|w: &str| #[trigger] processor.requires((w,)),
            outs.len() + 1 == split_words(chars@.take(i as int)).len(),
            forall|j: int|
                0 <= j < outs.len() ==> #[trigger] processor_gives(processor, split_words(chars@.take(i as int))[j], outs[j]),
            stack@ == split_words(chars@.take(i as int)).last(),
            builder@ == join_words_trailing(outs),
        decreases chars.len() - i,
    {
        let c = chars[i];
        let ghost prev = chars@.take(i as int);
        assert(chars@.take(i + 1).drop_last() =~= prev);
        proof {
            lemma_split_words_nonempty(prev);
        }
        if c == ' ' {
            let r = processor(stack.as_str());
            proof {
                assert(processor_gives(processor, stack@, r@));
                let old_outs = outs;
                outs = outs.push(r@);
                assert(outs.drop_last() =~= old_outs);
            }
            builder.append(r);
            stack = String::new();
            push_char(&mut builder, ' ');
            assert(builder@ =~= join_words_trailing(outs));
        } else {
            push_char(&mut stack, c);
        }
        i = i + 1;
    }
    let r = processor(stack.as_str());
    let ghost before = outs;
    proof {
        assert(chars@.take(i as int) =~= input@);
        assert(processor_gives(processor, stack@, r@));
        outs = outs.push(r@);
        assert(outs.drop_last() =~= before);
    }
    builder.append(r);
    assert(builder@ =~= join_words(outs));
    builder
}


/// A processor that hands every word back unchanged leaves the text as it
/// is: [`process_string`] keeps every space, consecutive ones included.
pub proof fn lemma_process_string_identity<F: Fn(&str) -> &str>(processor: F, input: Seq<char>, res: Seq<char>)
    requires
        forall|w: Seq<char>, o: Seq<char>| #[trigger] processor_gives(processor, w, o) ==> o == w,
        processed_by(processor, input, res),
    ensures
        res == input,
{
    let words = split_words(input);
    let outs = choose|outs: Seq<Seq<char>>|
        {
            &&& outs.len() == words.len()
            &&& forall|j: int| 0 <= j < outs.len() ==> #[trigger] processor_gives(processor, words[j], outs[j])
            &&& res == join_words(outs)
        };
    assert forall|j: int| 0 <= j < outs.len() implies outs[j] == words[j] by {
        assert(processor_gives(processor, words[j], outs[j]));
    }
    assert(outs =~= words);
    lemma_join_split_words(input);
}

/// The emoji that an ASCII emoticon stands for, or the word itself when it
/// is no emoticon.
pub open spec fn emoticon_spec(stack: Seq<char>) -> Seq<char> {
    if stack == "<3"@ {
        "\u{2764}\u{fe0f}"@
    } else if stack == ">:)"@ {
        "\u{1f608}"@
    } else if stack == ">:("@ {
        "\u{1f620}"@
    } else if stack == ":)"@ {
        "\u{1f642}"@
    } else if stack == ":("@ {
        " \u{1f641}"@
    } else if stack == ":/"@ {
        "\u{1fae4}"@
    } else if stack == ";)"@ {
        "\u{1f609}"@
    } else if stack == ":D"@ {
        "\u{1f601}"@
    } else if stack == "xD"@ {
        "\u{1f606}"@
    } else if stack == ":p"@ || stack == ":P"@ {
        "\u{1f61b}"@
    } else if stack == ";p"@ || stack == ";P"@ {
        "\u{1f61c}"@
    } else if stack == "xP"@ {
        "\u{1f61d}"@
    } else if stack == ":|"@ {
        "\u{1f610}"@
    } else if stack == ":O"@ {
        "\u{1f62e}"@
    } else {
        stack
    }
}

/// What [`stack_processor`] returns for one word: with `unescape_html`, an
/// HTML entity of [`HTML_ESCAPES`] or `&nbsp;` is turned back into its
/// character; otherwise, with `emojis`, an emoticon becomes its emoji; any
/// other word is kept.
pub open spec fn stack_processor_spec(stack: Seq<char>, unescape_html: bool, emojis: bool) -> Seq<char> {
    if unescape_html && stack == "&amp;"@ {
        "&"@
    } else if unescape_html && stack == "&lt;"@ {
        "<"@
    } else if unescape_html && stack == "&gt;"@ {
        ">"@
    } else if unescape_html && stack == "&quot;"@ {
        "\""@
    } else if unescape_html && stack == "&#x27;"@ {
        "\'"@
    } else if unescape_html && stack == "&nbsp;"@ {
        " "@
    } else if !emojis {
        stack
    } else {
        emoticon_spec(stack)
    }
}

/// The entries of [`HTML_ESCAPES`].
pub proof fn lemma_html_escapes_entries()
    ensures
        HTML_ESCAPES[0].0@ == "&"@ && HTML_ESCAPES[0].1@ == "&amp;"@,
        HTML_ESCAPES[1].0@ == "<"@ && HTML_ESCAPES[1].1@ == "&lt;"@,
        HTML_ESCAPES[2].0@ == ">"@ && HTML_ESCAPES[2].1@ == "&gt;"@,
        HTML_ESCAPES[3].0@ == "\""@ && HTML_ESCAPES[3].1@ == "&quot;"@,
        HTML_ESCAPES[4].0@ == "\'"@ && HTML_ESCAPES[4].1@ == "&#x27;"@,
{
}

/// With `unescape_html`, each entity of [`HTML_ESCAPES`] is turned back into
/// the character it escapes.
pub proof fn lemma_unescape_entity(j: int, emojis: bool)
    requires
        0 <= j < 5,
    ensures
        stack_processor_spec(HTML_ESCAPES[j].1@, true, emojis) == HTML_ESCAPES[j].0@,
{
    lemma_html_escapes_entries();
    reveal_strlit("&amp;");
    reveal_strlit("&lt;");
    reveal_strlit("&gt;");
    reveal_strlit("&quot;");
    reveal_strlit("&#x27;");
    reveal_strlit("&");
    reveal_strlit("<");
    reveal_strlit(">");
    reveal_strlit("\"");
    reveal_strlit("\'");
    if j == 1 {
        assert("&lt;"@.len() != "&amp;"@.len());
    } else if j == 2 {
        assert("&gt;"@.len() != "&amp;"@.len());
        assert("&gt;"@[1] != "&lt;"@[1]);
    } else if j == 3 {
        assert("&quot;"@.len() != "&amp;"@.len());
        assert("&quot;"@.len() != "&lt;"@.len());
        assert("&quot;"@.len() != "&gt;"@.len());
    } else if j == 4 {
        assert("&#x27;"@[1] != "&amp;"@[1]);
        assert("&#x27;"@.len() != "&lt;"@.len());
        assert("&#x27;"@.len() != "&gt;"@.len());
        assert("&#x27;"@[1] != "&quot;"@[1]);
    }
}

/// Maps one word: undoes an HTML escape when `unescape_html` is set, and
/// replaces an ASCII emoticon by its emoji when `emojis` is set.
pub fn stack_processor<'a>(stack: &'a str, unescape_html: bool, emojis: bool) -> (r: &'a str)
    ensures
        r@ == stack_processor_spec(stack@, unescape_html, emojis),
{
    if unescape_html {
        let mut i: usize = 0;
        while i < 5
            invariant
                i <= 5,
                unescape_html,
                forall|j: int| 0 <= j < i ==> HTML_ESCAPES[j].1@ != stack@,
            decreases 5 - i,
        {
            let (esc, entity) = HTML_ESCAPES[i];
            if str_eq(stack, entity) {
                proof {
                    lemma_html_escapes_entries();
                    assert(stack@ == HTML_ESCAPES[i as int].1@);
                    assert(i > 0 ==> HTML_ESCAPES[0].1@ != stack@);
                    assert(i > 1 ==> HTML_ESCAPES[1].1@ != stack@);
                    assert(i > 2 ==> HTML_ESCAPES[2].1@ != stack@);
                    assert(i > 3 ==> HTML_ESCAPES[3].1@ != stack@);
                    assert(esc@ == HTML_ESCAPES[i as int].0@);

                }
                return esc;
            }
            i = i + 1;
        }
        if str_eq("&nbsp;", stack) {
            return " ";
        }
    }
    if !emojis {
        return stack;
    }
    if str_eq(stack, "<3") {
        "\u{2764}\u{fe0f}"
    } else if str_eq(stack, ">:)") {
        "\u{1f608}"
    } else if str_eq(stack, ">:(") {
        "\u{1f620}"
    } else if str_eq(stack, ":)") {
        "\u{1f642}"
    } else if str_eq(stack, ":(") {
        " \u{1f641}"
    } else if str_eq(stack, ":/") {
        "\u{1fae4}"
    } else if str_eq(stack, ";)") {
        "\u{1f609}"
    } else if str_eq(stack, ":D") {
        "\u{1f601}"
    } else if str_eq(stack, "xD") {
        "\u{1f606}"
    } else if str_eq(stack, ":p") || str_eq(stack, ":P") {
        "\u{1f61b}"
    } else if str_eq(stack, ";p") || str_eq(stack, ";P") {
        "\u{1f61c}"
    } else if str_eq(stack, "xP") {
        "\u{1f61d}"
    } else if str_eq(stack, ":|") {
        "\u{1f610}"
    } else if str_eq(stack, ":O") {
        "\u{1f62e}"
    } else {
        stack
    }
}

/// `s` with every word mapped by [`stack_processor_spec`].
pub open spec fn process_words_spec(s: Seq<char>, unescape_html: bool, emojis: bool) -> Seq<char> {
    join_words(split_words(s).map_values(|w: Seq<char>| stack_processor_spec(w, unescape_html, emojis)))
}

/// `s` with every word that is an ASCII emoticon replaced by its emoji.
pub open spec fn replace_emojis_spec(s: Seq<char>) -> Seq<char> {
    process_words_spec(s, false, true)
}

/// Gives a closure the higher-ranked signature `Fn(&str) -> &str` that
/// [`process_string`] expects, so that it can be named before the call.
fn word_mapper<F: Fn(&str) -> &str>(f: F) -> (g: F)
    ensures
        g == f,
{
    f
}

/// [`process_string`] with [`stack_processor`] as its processor.
pub fn process_words(input: &str, unescape_html: bool, emojis: bool) -> (res: String)
    ensures
        res@ == process_words_spec(input@, unescape_html, emojis),
{
    let f = word_mapper(|s: &str| -> (o: &str)
        ensures
            o@ == stack_processor_spec(s@, unescape_html, emojis),
        { stack_processor(s, unescape_html, emojis) });
    let res = process_string(input, f);
    proof {
        let words = split_words(input@);
        let outs = choose|outs: Seq<Seq<char>>|
            {
                &&& outs.len() == words.len()
                &&& forall|j: int| 0 <= j < outs.len() ==> #[trigger] processor_gives(f, words[j], outs[j])
                &&& res@ == join_words(outs)
            };
        assert forall|j: int| 0 <= j < outs.len() implies outs[j] == stack_processor_spec(words[j], unescape_html, emojis) by {
            assert(processor_gives(f, words[j], outs[j]));
        }
        assert(outs =~= words.map_values(|w: Seq<char>| stack_processor_spec(w, unescape_html, emojis)));
    }
    res
}


/// `s` with every word that is an ASCII emoticon replaced by its emoji.
pub fn replace_emojis(input: &str) -> (res: String)
    ensures
        res@ == replace_emojis_spec(input@),
{
    process_words(input, false, true)
}

/// The emoji of a word of escaped text: the emoticons that hold `<` or `>`
/// are also recognised in their escaped forms (`&lt;3`, `&gt;:)`, `&gt;:(`);
/// any other word is mapped as [`replace_emojis`] maps it.
pub open spec fn escaped_emoticon_spec(w: Seq<char>) -> Seq<char> {
    if w == "&lt;3"@ {
        "\u{2764}\u{fe0f}"@
    } else if w == "&gt;:)"@ {
        "\u{1f608}"@
    } else if w == "&gt;:("@ {
        "\u{1f620}"@
    } else {
        stack_processor_spec(w, false, true)
    }
}

/// `s`, HTML-escaped text, with every emoticon word (escaped or not)
/// replaced by its emoji.
pub open spec fn replace_escaped_emojis_spec(s: Seq<char>) -> Seq<char> {
    join_words(split_words(s).map_values(|w: Seq<char>| escaped_emoticon_spec(w)))
}

/// Maps one word of escaped text to its emoji, if it is an emoticon.
pub fn escaped_emoticon<'a>(w: &'a str) -> (r: &'a str)
    ensures
        r@ == escaped_emoticon_spec(w@),
{
    if str_eq(w, "&lt;3") {
        "\u{2764}\u{fe0f}"
    } else if str_eq(w, "&gt;:)") {
        "\u{1f608}"
    } else if str_eq(w, "&gt;:(") {
        "\u{1f620}"
    } else {
        stack_processor(w, false, true)
    }
}

/// Replaces the emoticons of HTML-escaped text by emojis, recognising the
/// escaped forms of the emoticons that hold `<` or `>`.
pub fn replace_escaped_emojis(input: &str) -> (res: String)
    ensures
        res@ == replace_escaped_emojis_spec(input@),
{
    let f = word_mapper(|s: &str| -> (o: &str)
        ensures
            o@ == escaped_emoticon_spec(s@),
        { escaped_emoticon(s) });
    let res = process_string(input, f);
    proof {
        let words = split_words(input@);
        let outs = choose|outs: Seq<Seq<char>>|
            {
                &&& outs.len() == words.len()
                &&& forall|j: int| 0 <= j < outs.len() ==> #[trigger] processor_gives(f, words[j], outs[j])
                &&& res@ == join_words(outs)
            };
        assert forall|j: int| 0 <= j < outs.len() implies outs[j] == escaped_emoticon_spec(words[j]) by {
            assert(processor_gives(f, words[j], outs[j]));
        }
        assert(outs =~= words.map_values(|w: Seq<char>| escaped_emoticon_spec(w)));
    }
    res
}

/// Whether `s` is an emoji that the `emojis` crate knows.
pub uninterp spec fn known_emoji(s: Seq<char>) -> bool;

/// Trusted: calls `emojis::get`, which looks the string up in the crate's
/// table of emojis; the wrapper returns whether it found one. The outcome is
/// named [`known_emoji`]; nothing more is claimed.
#[verifier::external_body]
fn emojis_get_is_some(s: &str) -> (r: bool)
    ensures
        r == known_emoji(s@),
{
    emojis::get(s).is_some()
}

/// The concatenation of all sequences of `parts`.
pub open spec fn concat_all(parts: Seq<Seq<char>>) -> Seq<char>
    decreases parts.len(),
{
    if parts.len() == 0 {
        Seq::<char>::empty()
    } else {
        concat_all(parts.drop_last()) + parts.last()
    }
}

/// The extended grapheme clusters of `s`, as `unic_segment` splits them.
pub uninterp spec fn grapheme_clusters(s: Seq<char>) -> Seq<Seq<char>>;

/// Trusted: calls `unic_segment::GraphemeIndices::new` and collects the
/// clusters it yields. The clusters are named [`grapheme_clusters`]; the
/// contract also states that they partition the string, in order, which is
/// what a segmentation into grapheme clusters is.
#[verifier::external_body]
fn graphemes(s: &str) -> (g: Vec<String>)
    ensures
        g@.map_values(|x: String| x@) == grapheme_clusters(s@),
        concat_all(g@.map_values(|x: String| x@)) == s@,
{
    unic_segment::GraphemeIndices::new(s).map(|(_, c)| c.to_string()).collect()
}

/// The Unicode `Emoji` property.
pub uninterp spec fn emoji_property(c: char) -> bool;

/// The Unicode `Emoji_Component` property.
pub uninterp spec fn emoji_component_property(c: char) -> bool;

/// The Unicode `Emoji_Modifier` property.
pub uninterp spec fn emoji_modifier_property(c: char) -> bool;

/// The Unicode `Emoji_Modifier_Base` property.
pub uninterp spec fn emoji_modifier_base_property(c: char) -> bool;

/// The Unicode `Emoji_Presentation` property.
pub uninterp spec fn emoji_presentation_property(c: char) -> bool;

/// Trusted: `unic_emoji_char::is_emoji` looks the character up in the
/// Unicode `Emoji` property table; its result is named [`emoji_property`].
pub assume_specification[ unic_emoji_char::is_emoji ](ch: char) -> (r: bool)
    ensures
        r == emoji_property(ch),
;

/// Trusted: `unic_emoji_char::is_emoji_component` looks the character up in
/// the `Emoji_Component` table; its result is named [`emoji_component_property`].
pub assume_specification[ unic_emoji_char::is_emoji_component ](ch: char) -> (r: bool)
    ensures
        r == emoji_component_property(ch),
;

/// Trusted: `unic_emoji_char::is_emoji_modifier` looks the character up in
/// the `Emoji_Modifier` table; its result is named [`emoji_modifier_property`].
pub assume_specification[ unic_emoji_char::is_emoji_modifier ](ch: char) -> (r: bool)
    ensures
        r == emoji_modifier_property(ch),
;

/// Trusted: `unic_emoji_char::is_emoji_modifier_base` looks the character up
/// in the `Emoji_Modifier_Base` table; its result is named
/// [`emoji_modifier_base_property`].
pub assume_specification[ unic_emoji_char::is_emoji_modifier_base ](ch: char) -> (r: bool)
    ensures
        r == emoji_modifier_base_property(ch),
;

/// Trusted: `unic_emoji_char::is_emoji_presentation` looks the character up
/// in the `Emoji_Presentation` table; its result is named
/// [`emoji_presentation_property`].
pub assume_specification[ unic_emoji_char::is_emoji_presentation ](ch: char) -> (r: bool)
    ensures
        r == emoji_presentation_property(ch),
;

/// A character that may stand in an emoji: one with any of the emoji
/// properties, or the zero-width joiner that glues emojis together.
pub open spec fn emoji_char(c: char) -> bool {
    ||| emoji_property(c)
    ||| emoji_component_property(c)
    ||| emoji_modifier_property(c)
    ||| emoji_modifier_base_property(c)
    ||| emoji_presentation_property(c)
    ||| c == '\u{200d}'
}

/// Every character of `s` may stand in an emoji.
pub open spec fn all_emoji_chars(s: Seq<char>) -> bool {
    forall|k: int| 0 <= k < s.len() ==> emoji_char(#[trigger] s[k])
}

/// An ASCII letter or digit.
pub open spec fn ascii_alphanumeric(c: char) -> bool {
    ||| 48 <= (c as u32) <= 57
    ||| 65 <= (c as u32) <= 90
    ||| 97 <= (c as u32) <= 122
}

/// The combining enclosing keycap, which turns a digit, `#` or `*` into a
/// keycap emoji.
pub open spec fn keycap() -> char {
    '\u{20e3}'
}

/// A grapheme cluster that holds an ASCII letter or digit outside a keycap
/// sequence: such a cluster is text, whatever the emoji tables say of its
/// characters.
pub open spec fn bare_ascii_alphanumeric(g: Seq<char>) -> bool {
    &&& exists|k: int| 0 <= k < g.len() && ascii_alphanumeric(#[trigger] g[k])
    &&& lacks(g, keycap())
}

/// `s`, once trimmed, is a known emoji, or each of its grapheme clusters,
/// trimmed, is made of characters that the emoji tables list (digits, `#`
/// and `*` among them).
pub open spec fn emoji_characters_only_spec(s: Seq<char>) -> bool {
    let t = trim_spec(s);
    ||| known_emoji(t)
    ||| forall|i: int|
        0 <= i < grapheme_clusters(t).len() ==> all_emoji_chars(trim_spec(#[trigger] grapheme_clusters(t)[i]))
}

/// `s`, once trimmed, has no grapheme cluster with a bare ASCII letter or
/// digit, and it is made of emoji characters only
/// ([`emoji_characters_only_spec`]).
pub open spec fn is_only_emojis_spec(s: Seq<char>) -> bool {
    let t = trim_spec(s);
    &&& forall|i: int| 0 <= i < grapheme_clusters(t).len() ==> !bare_ascii_alphanumeric(#[trigger] grapheme_clusters(t)[i])
    &&& emoji_characters_only_spec(s)
}

/// Whether `c` may stand in an emoji.
fn is_emoji_char(c: char) -> (r: bool)
    ensures
        r == emoji_char(c),
{
    is_emoji(c) || is_emoji_component(c) || is_emoji_modifier(c) || is_emoji_modifier_base(c)
        || is_emoji_presentation(c) || c == '\u{200d}'
}

/// Whether `c` is an ASCII letter or digit.
fn is_ascii_alphanumeric_char(c: char) -> (r: bool)
    ensures
        r == ascii_alphanumeric(c),
{
    let u = c as u32;
    (48 <= u && u <= 57) || (65 <= u && u <= 90) || (97 <= u && u <= 122)
}

/// Whether a grapheme cluster holds an ASCII letter or digit outside a
/// keycap sequence.
fn has_bare_ascii_alphanumeric(g: &Vec<char>) -> (r: bool)
    ensures
        r == bare_ascii_alphanumeric(g@),
{
    let mut alnum = false;
    let mut cap = false;
    let mut k: usize = 0;
    while k < g.len()
        invariant
            k <= g.len(),
            alnum == exists|m: int| 0 <= m < k && ascii_alphanumeric(#[trigger] g@[m]),
            cap == exists|m: int| 0 <= m < k && #[trigger] g@[m] == keycap(),
        decreases g.len() - k,
    {
        if is_ascii_alphanumeric_char(g[k]) {
            alnum = true;
        }
        if g[k] == '\u{20e3}' {
            cap = true;
        }
        k = k + 1;
    }
    alnum && !cap
}

/// Whether the input, apart from white space, consists of emojis only. No
/// ASCII letter or digit counts as an emoji unless it is part of a keycap
/// sequence.
pub fn is_only_emojis(input: &str) -> (r: bool)
    ensures
        r == is_only_emojis_spec(input@),
        trim_spec(input@).len() == 0 ==> r,
        (exists|k: int| 0 <= k < input@.len() && ascii_alphanumeric(#[trigger] input@[k]))
            && lacks(input@, keycap()) ==> !r,
{
    let chars = str_to_chars(input);
    let t = trim_chars(&chars);
    let ts = chars_to_string(&t);
    let gs = graphemes(ts.as_str());
    let ghost clusters = grapheme_clusters(t@);
    proof {
        lemma_bare_alphanumeric_in_cluster(input@);
        if t@.len() == 0 {
            lemma_concat_all_empty(clusters);
            assert forall|i: int| 0 <= i < clusters.len() implies all_emoji_chars(trim_spec(#[trigger] clusters[i])) && !bare_ascii_alphanumeric(clusters[i]) by {
                assert(clusters[i].len() == 0);
                assert(trim_start_spec(clusters[i]) == clusters[i]);
                assert(trim_end_spec(clusters[i]) == clusters[i]);
            }
        }
    }
    let mut i: usize = 0;
    while i < gs.len()
        invariant
            i <= gs.len(),
            gs@.map_values(|x: String| x@) == clusters,
            clusters == grapheme_clusters(trim_spec(input@)),
            forall|j: int| 0 <= j < i ==> !bare_ascii_alphanumeric(#[trigger] clusters[j]),
            trim_spec(input@).len() == 0 ==> forall|j: int|
                0 <= j < clusters.len() ==> all_emoji_chars(trim_spec(#[trigger] clusters[j])) && !bare_ascii_alphanumeric(clusters[j]),
        decreases gs.len() - i,
    {
        let g = str_to_chars(gs[i].as_str());
        assert(g@ == clusters[i as int]);
        if has_bare_ascii_alphanumeric(&g) {
            return false;
        }
        i = i + 1;
    }
    emoji_characters_only(input)
}

/// Whether the input, apart from white space, is a known emoji or is made of
/// characters that the emoji tables list.
pub fn emoji_characters_only(input: &str) -> (r: bool)
    ensures
        r == emoji_characters_only_spec(input@),
        trim_spec(input@).len() == 0 ==> r,
{
    let chars = str_to_chars(input);
    let t = trim_chars(&chars);
    let ts = chars_to_string(&t);
    let gs = graphemes(ts.as_str());
    let ghost clusters = grapheme_clusters(t@);
    proof {
        if t@.len() == 0 {
            lemma_concat_all_empty(clusters);
            assert forall|i: int| 0 <= i < clusters.len() implies all_emoji_chars(trim_spec(#[trigger] clusters[i])) by {
                assert(clusters[i].len() == 0);
                assert(trim_start_spec(clusters[i]) == clusters[i]);
                assert(trim_end_spec(clusters[i]) == clusters[i]);
            }
        }
    }
    if emojis_get_is_some(ts.as_str()) {
        return true;
    }
    let mut i: usize = 0;
    while i < gs.len()
        invariant
            i <= gs.len(),
            gs@.map_values(|x: String| x@) == clusters,
            clusters == grapheme_clusters(trim_spec(input@)),
            !known_emoji(trim_spec(input@)),
            forall|j: int| 0 <= j < i ==> all_emoji_chars(trim_spec(#[trigger] clusters[j])),
            trim_spec(input@).len() == 0 ==> forall|j: int|
                0 <= j < clusters.len() ==> all_emoji_chars(trim_spec(#[trigger] clusters[j])),
        decreases gs.len() - i,
    {
        let g = str_to_chars(gs[i].as_str());
        let gt = trim_chars(&g);
        assert(g@ == clusters[i as int]);
        let mut k: usize = 0;
        while k < gt.len()
            invariant
                k <= gt.len(),
                i < gs.len(),
                gs@.map_values(|x: String| x@) == clusters,
                gt@ == trim_spec(clusters[i as int]),
                clusters == grapheme_clusters(trim_spec(input@)),
                !known_emoji(trim_spec(input@)),
                    forall|m: int| 0 <= m < k ==> emoji_char(#[trigger] gt@[m]),
                trim_spec(input@).len() == 0 ==> forall|j: int|
                    0 <= j < clusters.len() ==> all_emoji_chars(trim_spec(#[trigger] clusters[j])),
            decreases gt.len() - k,
        {
            if !is_emoji_char(gt[k]) {
                assert(!all_emoji_chars(trim_spec(clusters[i as int])));
                assert(clusters.len() == gs.len());
                assert(!all_emoji_chars(trim_spec(grapheme_clusters(trim_spec(input@))[i as int])));
                return false;
            }
            k = k + 1;
        }
        i = i + 1;
    }
    true
}

/// A text with an ASCII letter or digit and no keycap has, once trimmed, a
/// grapheme cluster with a bare ASCII letter or digit.
proof fn lemma_bare_alphanumeric_in_cluster(s: Seq<char>)
    requires
        concat_all(grapheme_clusters(trim_spec(s))) == trim_spec(s),
    ensures
        (exists|k: int| 0 <= k < s.len() && ascii_alphanumeric(#[trigger] s[k])) && lacks(s, keycap())
            ==> exists|i: int| 0 <= i < grapheme_clusters(trim_spec(s)).len()
                && bare_ascii_alphanumeric(#[trigger] grapheme_clusters(trim_spec(s))[i]),
{
    if (exists|k: int| 0 <= k < s.len() && ascii_alphanumeric(#[trigger] s[k])) && lacks(s, keycap()) {
        let t = trim_spec(s);
        let cs = grapheme_clusters(t);
        let k = choose|k: int| 0 <= k < s.len() && ascii_alphanumeric(#[trigger] s[k]);
        lemma_trim_keeps(s, k);
        let j = choose|j: int| 0 <= j < t.len() && t[j] == s[k];
        lemma_trim_lacks(s, keycap());
        lemma_concat_all_part(cs, j);
        lemma_concat_all_lacks(cs, keycap());
        let (i, m) = choose|i: int, m: int| 0 <= i < cs.len() && 0 <= m < cs[i].len() && cs[i][m] == concat_all(cs)[j];
        assert(ascii_alphanumeric(cs[i][m]));
        assert(bare_ascii_alphanumeric(cs[i]));
    }
}

/// Every character of the concatenation stands in one of the parts.
proof fn lemma_concat_all_part(parts: Seq<Seq<char>>, j: int)
    requires
        0 <= j < concat_all(parts).len(),
    ensures
        exists|i: int, m: int| 0 <= i < parts.len() && 0 <= m < parts[i].len() && #[trigger] parts[i][m] == concat_all(parts)[j],
    decreases parts.len(),
{
    if parts.len() > 0 {
        let p = parts.drop_last();
        let head = concat_all(p);
        if j < head.len() {
            lemma_concat_all_part(p, j);
            let (i, m) = choose|i: int, m: int| 0 <= i < p.len() && 0 <= m < p[i].len() && #[trigger] p[i][m] == head[j];
            assert(parts[i] == p[i]);
            assert(parts[i][m] == concat_all(parts)[j]);
        } else {
            let i = parts.len() - 1;
            let m = j - head.len();
            assert(parts[i][m] == concat_all(parts)[j]);
        }
    }
}

/// The parts of a concatenation lacking `x` lack `x`.
proof fn lemma_concat_all_lacks(parts: Seq<Seq<char>>, x: char)
    requires
        lacks(concat_all(parts), x),
    ensures
        forall|i: int| 0 <= i < parts.len() ==> lacks(#[trigger] parts[i], x),
    decreases parts.len(),
{
    if parts.len() > 0 {
        let p = parts.drop_last();
        let head = concat_all(p);
        assert forall|m: int| 0 <= m < head.len() implies #[trigger] head[m] != x by {
            assert(head[m] == concat_all(parts)[m]);
        }
        lemma_concat_all_lacks(p, x);
        assert forall|i: int| 0 <= i < parts.len() implies lacks(#[trigger] parts[i], x) by {
            if i < p.len() {
                assert(parts[i] == p[i]);
            } else {
                assert forall|m: int| 0 <= m < parts[i].len() implies #[trigger] parts[i][m] != x by {
                    assert(parts[i][m] == concat_all(parts)[head.len() + m]);
                }
            }
        }
    }
}

/// One of the characters that HTML gives a meaning to in text and
/// attributes: `<`, `>`, `"` and `'`.
pub open spec fn html_special(x: char) -> bool {
    x == '<' || x == '>' || x == '"' || x == '\''
}

/// The words of a text lacking `x` lack `x`.
pub proof fn lemma_split_words_lacks(s: Seq<char>, x: char)
    requires
        lacks(s, x),
    ensures
        forall|j: int| 0 <= j < split_words(s).len() ==> lacks(#[trigger] split_words(s)[j], x),
    decreases s.len(),
{
    if s.len() > 0 {
        let p = s.drop_last();
        assert forall|i: int| 0 <= i < p.len() implies #[trigger] p[i] != x by {
            assert(p[i] == s[i]);
        }
        lemma_split_words_lacks(p, x);
        lemma_split_words_nonempty(p);
        let w = split_words(p);
        if s.last() != ' ' {
            let nw = w.last().push(s.last());
            assert(s[s.len() - 1] != x);
            assert forall|i: int| 0 <= i < nw.len() implies #[trigger] nw[i] != x by {
                if i < w.last().len() {
                    assert(nw[i] == w.last()[i]);
                    assert(lacks(w[w.len() - 1], x));
                }
            }
        }
    }
}

/// Words lacking `x`, joined by spaces, lack `x` when `x` is no space.
pub proof fn lemma_join_words_lacks(ws: Seq<Seq<char>>, x: char)
    requires
        x != ' ',
        forall|j: int| 0 <= j < ws.len() ==> lacks(#[trigger] ws[j], x),
    ensures
        lacks(join_words(ws), x),
{
    if ws.len() > 0 {
        lemma_join_words_trailing_lacks(ws.drop_last(), x);
        assert(lacks(ws[ws.len() - 1], x));
        lemma_lacks_concat(join_words_trailing(ws.drop_last()), ws.last(), x);
    }
}

proof fn lemma_join_words_trailing_lacks(ws: Seq<Seq<char>>, x: char)
    requires
        x != ' ',
        forall|j: int| 0 <= j < ws.len() ==> lacks(#[trigger] ws[j], x),
    ensures
        lacks(join_words_trailing(ws), x),
    decreases ws.len(),
{
    if ws.len() > 0 {
        let p = ws.drop_last();
        assert forall|j: int| 0 <= j < p.len() implies lacks(#[trigger] p[j], x) by {
            assert(p[j] == ws[j]);
        }
        lemma_join_words_trailing_lacks(p, x);
        assert(lacks(ws[ws.len() - 1], x));
        lemma_lacks_concat(join_words_trailing(p), ws.last(), x);
        lemma_lacks_concat(join_words_trailing(p) + ws.last(), seq![' '], x);
    }
}

/// The emojis that emoticons become, character by character.
proof fn lemma_emoji_texts()
    ensures
        "\u{2764}\u{fe0f}"@ == seq!['\u{2764}', '\u{fe0f}'],
        "\u{1f608}"@ == seq!['\u{1f608}'],
        "\u{1f620}"@ == seq!['\u{1f620}'],
        "\u{1f642}"@ == seq!['\u{1f642}'],
        " \u{1f641}"@ == seq![' ', '\u{1f641}'],
        "\u{1fae4}"@ == seq!['\u{1fae4}'],
        "\u{1f609}"@ == seq!['\u{1f609}'],
        "\u{1f601}"@ == seq!['\u{1f601}'],
        "\u{1f606}"@ == seq!['\u{1f606}'],
        "\u{1f61b}"@ == seq!['\u{1f61b}'],
        "\u{1f61c}"@ == seq!['\u{1f61c}'],
        "\u{1f61d}"@ == seq!['\u{1f61d}'],
        "\u{1f610}"@ == seq!['\u{1f610}'],
        "\u{1f62e}"@ == seq!['\u{1f62e}'],
{
    reveal_strlit("\u{2764}\u{fe0f}");
    reveal_strlit("\u{1f608}");
    reveal_strlit("\u{1f620}");
    reveal_strlit("\u{1f642}");
    reveal_strlit(" \u{1f641}");
    reveal_strlit("\u{1fae4}");
    reveal_strlit("\u{1f609}");
    reveal_strlit("\u{1f601}");
    reveal_strlit("\u{1f606}");
    reveal_strlit("\u{1f61b}");
    reveal_strlit("\u{1f61c}");
    reveal_strlit("\u{1f61d}");
    reveal_strlit("\u{1f610}");
    reveal_strlit("\u{1f62e}");
}

/// The emoji of an emoticon holds none of `<`, `>`, `"` and `'`.
pub proof fn lemma_emoticon_lacks(w: Seq<char>, x: char)
    requires
        lacks(w, x),
        html_special(x),
    ensures
        lacks(emoticon_spec(w), x),
{
    lemma_emoji_texts();
}

/// Replacing emoticons brings in none of `<`, `>`, `"` and `'`.
pub proof fn lemma_replace_emojis_lacks(s: Seq<char>, x: char)
    requires
        lacks(s, x),
        html_special(x),
    ensures
        lacks(replace_emojis_spec(s), x),
{
    let ws = split_words(s);
    lemma_split_words_lacks(s, x);
    let outs = ws.map_values(|w: Seq<char>| stack_processor_spec(w, false, true));
    assert forall|j: int| 0 <= j < outs.len() implies lacks(#[trigger] outs[j], x) by {
        assert(lacks(ws[j], x));
        lemma_emoticon_lacks(ws[j], x);
    }
    lemma_join_words_lacks(outs, x);
}


/// Replacing emoticons in escaped text brings in none of `<`, `>`, `"` and
/// `'`.
pub proof fn lemma_replace_escaped_emojis_lacks(s: Seq<char>, x: char)
    requires
        lacks(s, x),
        html_special(x),
    ensures
        lacks(replace_escaped_emojis_spec(s), x),
{
    let ws = split_words(s);
    lemma_split_words_lacks(s, x);
    let outs = ws.map_values(|w: Seq<char>| escaped_emoticon_spec(w));
    lemma_emoji_texts();
    assert forall|j: int| 0 <= j < outs.len() implies lacks(#[trigger] outs[j], x) by {
        assert(lacks(ws[j], x));
        lemma_emoticon_lacks(ws[j], x);
    }
    lemma_join_words_lacks(outs, x);
}

/// Whether `w` is one of the ASCII emoticons.
pub open spec fn emoticon_key(w: Seq<char>) -> bool {
    ||| w == "<3"@
    ||| w == ">:)"@
    ||| w == ">:("@
    ||| w == ":)"@
    ||| w == ":("@
    ||| w == ":/"@
    ||| w == ";)"@
    ||| w == ":D"@
    ||| w == "xD"@
    ||| w == ":p"@
    ||| w == ":P"@
    ||| w == ";p"@
    ||| w == ";P"@
    ||| w == "xP"@
    ||| w == ":|"@
    ||| w == ":O"@
}

/// With neither unescaping nor emojis, processing word by word gives the
/// text back.
pub proof fn lemma_process_words_neutral(s: Seq<char>)
    ensures
        process_words_spec(s, false, false) == s,
{
    let ws = split_words(s);
    assert(ws.map_values(|w: Seq<char>| stack_processor_spec(w, false, false)) =~= ws);
    lemma_join_split_words(s);
}

/// A text none of whose words is an emoticon is left as it is by
/// [`replace_emojis`].
pub proof fn lemma_replace_emojis_plain(s: Seq<char>)
    requires
        forall|j: int| 0 <= j < split_words(s).len() ==> !emoticon_key(#[trigger] split_words(s)[j]),
    ensures
        replace_emojis_spec(s) == s,
{
    let ws = split_words(s);
    assert forall|j: int| 0 <= j < ws.len() implies #[trigger] stack_processor_spec(ws[j], false, true) == ws[j] by {
        assert(!emoticon_key(ws[j]));
    }
    assert(ws.map_values(|w: Seq<char>| stack_processor_spec(w, false, true)) =~= ws);
    lemma_join_split_words(s);
}

/// No word of `s` is an ASCII emoticon.
pub open spec fn no_emoticon_words(s: Seq<char>) -> bool {
    forall|j: int| 0 <= j < split_words(s).len() ==> !emoticon_key(#[trigger] split_words(s)[j])
}

/// The words of `s` hold no space.
proof fn lemma_split_words_spaceless(s: Seq<char>)
    ensures
        forall|j: int| 0 <= j < split_words(s).len() ==> lacks(#[trigger] split_words(s)[j], ' '),
    decreases s.len(),
{
    if s.len() > 0 {
        let p = s.drop_last();
        lemma_split_words_spaceless(p);
        lemma_split_words_nonempty(p);
        let w = split_words(p);
        if s.last() != ' ' {
            let nw = w.last().push(s.last());
            assert(lacks(w[w.len() - 1], ' '));
            assert forall|i: int| 0 <= i < nw.len() implies #[trigger] nw[i] != ' ' by {
                if i < w.last().len() {
                    assert(nw[i] == w.last()[i]);
                }
            }
        }
    }
}

/// A text without spaces is a single word.
proof fn lemma_split_single_word(w: Seq<char>)
    requires
        lacks(w, ' '),
    ensures
        split_words(w) == seq![w],
    decreases w.len(),
{
    if w.len() > 0 {
        let p = w.drop_last();
        assert forall|i: int| 0 <= i < p.len() implies #[trigger] p[i] != ' ' by {
            assert(p[i] == w[i]);
        }
        lemma_split_single_word(p);
        assert(w[w.len() - 1] != ' ');
        assert(p.push(w.last()) =~= w);
        assert(seq![p].update(0, p.push(w.last())) =~= seq![w]);
    } else {
        assert(w =~= Seq::<char>::empty());
    }
}

/// Splitting two texts joined by a space gives the words of the first, then
/// those of the second.
proof fn lemma_split_concat(a: Seq<char>, b: Seq<char>)
    ensures
        split_words(a + seq![' '] + b) == split_words(a) + split_words(b),
    decreases b.len(),
{
    let s = a + seq![' '] + b;
    if b.len() == 0 {
        assert(s.drop_last() =~= a);
        assert(split_words(s) =~= split_words(a) + split_words(b));
    } else {
        let b1 = b.drop_last();
        assert(s.drop_last() =~= a + seq![' '] + b1);
        lemma_split_concat(a, b1);
        lemma_split_words_nonempty(b1);
        let w1 = split_words(a);
        let w2 = split_words(b1);
        if b.last() == ' ' {
            assert(split_words(s) =~= w1 + split_words(b));
        } else {
            let ww = w1 + w2;
            assert(ww.last() == w2.last());
            assert(ww.update(ww.len() - 1, ww.last().push(b.last())) =~= w1 + w2.update(w2.len() - 1, w2.last().push(b.last())));
        }
    }
}

/// Words joined by spaces: all but the last joined, a space, the last.
proof fn lemma_join_words_last(ws: Seq<Seq<char>>)
    requires
        ws.len() >= 2,
    ensures
        join_words(ws) == join_words(ws.drop_last()) + seq![' '] + ws.last(),
{
    let p = ws.drop_last();
    assert(p.drop_last() =~= ws.drop_last().drop_last());
    assert(join_words_trailing(p) =~= join_words_trailing(p.drop_last()) + p.last() + seq![' ']);
}

/// Words, none of which splits into an emoticon, joined by spaces, hold no
/// emoticon word.
proof fn lemma_join_no_emoticon_words(outs: Seq<Seq<char>>)
    requires
        forall|j: int| 0 <= j < outs.len() ==> no_emoticon_words(#[trigger] outs[j]),
    ensures
        no_emoticon_words(join_words(outs)),
    decreases outs.len(),
{
    if outs.len() == 0 {
        lemma_emoticon_keys_ascii(Seq::<char>::empty());
        assert(split_words(join_words(outs)) =~= seq![Seq::<char>::empty()]);
    } else if outs.len() == 1 {
        assert(no_emoticon_words(outs[0]));
        assert(join_words_trailing(outs.drop_last()) =~= Seq::<char>::empty());
        assert(join_words(outs) =~= outs[0]);
    } else {
        let p = outs.drop_last();
        assert forall|j: int| 0 <= j < p.len() implies no_emoticon_words(#[trigger] p[j]) by {
            assert(p[j] == outs[j]);
        }
        lemma_join_no_emoticon_words(p);
        lemma_join_words_last(outs);
        lemma_split_concat(join_words(p), outs.last());
        assert(no_emoticon_words(outs[outs.len() - 1]));
        let w1 = split_words(join_words(p));
        let w2 = split_words(outs.last());
        assert forall|j: int| 0 <= j < (w1 + w2).len() implies !emoticon_key(#[trigger] (w1 + w2)[j]) by {
            if j < w1.len() {
                assert((w1 + w2)[j] == w1[j]);
            } else {
                assert((w1 + w2)[j] == w2[j - w1.len()]);
            }
        }
    }
}

/// An ASCII emoticon is at least two characters long and all ASCII.
proof fn lemma_emoticon_keys_ascii(w: Seq<char>)
    ensures
        emoticon_key(w) ==> w.len() >= 2 && (w[0] as u32) < 128,
{
    reveal_strlit("<3");
    reveal_strlit(">:)");
    reveal_strlit(">:(");
    reveal_strlit(":)");
    reveal_strlit(":(");
    reveal_strlit(":/");
    reveal_strlit(";)");
    reveal_strlit(":D");
    reveal_strlit("xD");
    reveal_strlit(":p");
    reveal_strlit(":P");
    reveal_strlit(";p");
    reveal_strlit(";P");
    reveal_strlit("xP");
    reveal_strlit(":|");
    reveal_strlit(":O");
}

/// The words of a text whose characters are spaces or non-ASCII hold only
/// non-ASCII characters.
proof fn lemma_split_words_non_ascii(s: Seq<char>)
    requires
        forall|i: int| 0 <= i < s.len() ==> #[trigger] s[i] == ' ' || (s[i] as u32) >= 128,
    ensures
        forall|j: int, k: int| 0 <= j < split_words(s).len() && 0 <= k < split_words(s)[j].len()
            ==> (#[trigger] split_words(s)[j][k] as u32) >= 128,
    decreases s.len(),
{
    if s.len() > 0 {
        let p = s.drop_last();
        assert forall|i: int| 0 <= i < p.len() implies #[trigger] p[i] == ' ' || (p[i] as u32) >= 128 by {
            assert(p[i] == s[i]);
        }
        lemma_split_words_non_ascii(p);
        lemma_split_words_nonempty(p);
        let w = split_words(p);
        if s.last() != ' ' {
            let nw = w.last().push(s.last());
            assert(s[s.len() - 1] == ' ' || (s[s.len() - 1] as u32) >= 128);
            assert forall|k: int| 0 <= k < nw.len() implies (#[trigger] nw[k] as u32) >= 128 by {
                if k < w.last().len() {
                    assert(nw[k] == w[w.len() - 1][k]);
                }
            }
            assert forall|j: int, k: int| 0 <= j < split_words(s).len() && 0 <= k < split_words(s)[j].len()
                implies (#[trigger] split_words(s)[j][k] as u32) >= 128 by {
                if j < w.len() - 1 {
                    assert(split_words(s)[j] == w[j]);
                } else {
                    assert(split_words(s)[j] == nw);
                }
            }
        } else {
            assert forall|j: int, k: int| 0 <= j < split_words(s).len() && 0 <= k < split_words(s)[j].len()
                implies (#[trigger] split_words(s)[j][k] as u32) >= 128 by {
                if j < w.len() {
                    assert(split_words(s)[j] == w[j]);
                }
            }
        }
    }
}

/// A text whose characters are spaces or non-ASCII holds no emoticon word.
proof fn lemma_non_ascii_no_emoticon_words(s: Seq<char>)
    requires
        forall|i: int| 0 <= i < s.len() ==> #[trigger] s[i] == ' ' || (s[i] as u32) >= 128,
    ensures
        no_emoticon_words(s),
{
    lemma_split_words_non_ascii(s);
    assert forall|j: int| 0 <= j < split_words(s).len() implies !emoticon_key(#[trigger] split_words(s)[j]) by {
        let w = split_words(s)[j];
        lemma_emoticon_keys_ascii(w);
        if w.len() >= 2 {
            assert((w[0] as u32) >= 128);
        }
    }
}

/// What [`stack_processor_spec`] makes of a word, with emojis on and no
/// unescaping, holds no emoticon word.
proof fn lemma_emoticon_output_plain(w: Seq<char>)
    requires
        lacks(w, ' '),
    ensures
        no_emoticon_words(stack_processor_spec(w, false, true)),
{
    if emoticon_key(w) {
        lemma_emoji_texts();
        let e = stack_processor_spec(w, false, true);
        assert forall|i: int| 0 <= i < e.len() implies #[trigger] e[i] == ' ' || (e[i] as u32) >= 128 by {}
        lemma_non_ascii_no_emoticon_words(e);
    } else {
        assert(stack_processor_spec(w, false, true) == w);
        lemma_split_single_word(w);
        assert(split_words(w)[0] == w);
    }
}

/// Replacing emoticons a second time changes nothing: no emoji that
/// [`replace_emojis`] writes reads as an emoticon.
pub proof fn lemma_replace_emojis_idempotent(s: Seq<char>)
    ensures
        replace_emojis_spec(replace_emojis_spec(s)) == replace_emojis_spec(s),
{
    let ws = split_words(s);
    let outs = ws.map_values(|w: Seq<char>| stack_processor_spec(w, false, true));
    lemma_split_words_spaceless(s);
    assert forall|j: int| 0 <= j < outs.len() implies no_emoticon_words(#[trigger] outs[j]) by {
        assert(lacks(ws[j], ' '));
        lemma_emoticon_output_plain(ws[j]);
    }
    lemma_join_no_emoticon_words(outs);
    lemma_replace_emojis_plain(replace_emojis_spec(s));
}

/// Two emoticons that differ only in the case of a final `p` (`:p` and
/// `:P`, `;p` and `;P`).
pub open spec fn same_face(w1: Seq<char>, w2: Seq<char>) -> bool {
    ||| w1 == w2
    ||| (w1.len() == 2 && w2.len() == 2 && w1[0] == w2[0] && (w1[1] == 'p' || w1[1] == 'P') && (w2[1] == 'p'
        || w2[1] == 'P'))
}

/// The number of the face an emoticon shows (14 for a word that is none).
spec fn face_index(w: Seq<char>) -> int {
    if w == "<3"@ {
        0
    } else if w == ">:)"@ {
        1
    } else if w == ">:("@ {
        2
    } else if w == ":)"@ {
        3
    } else if w == ":("@ {
        4
    } else if w == ":/"@ {
        5
    } else if w == ";)"@ {
        6
    } else if w == ":D"@ {
        7
    } else if w == "xD"@ {
        8
    } else if w == ":p"@ {
        9
    } else if w == ":P"@ {
        9
    } else if w == ";p"@ {
        10
    } else if w == ";P"@ {
        10
    } else if w == "xP"@ {
        11
    } else if w == ":|"@ {
        12
    } else if w == ":O"@ {
        13
    } else {
        14
    }
}

/// The first character of each face's emoji.
spec fn face_first(k: int) -> char {
    if k == 0 {
        '\u{2764}'
    } else if k == 1 {
        '\u{1f608}'
    } else if k == 2 {
        '\u{1f620}'
    } else if k == 3 {
        '\u{1f642}'
    } else if k == 4 {
        ' '
    } else if k == 5 {
        '\u{1fae4}'
    } else if k == 6 {
        '\u{1f609}'
    } else if k == 7 {
        '\u{1f601}'
    } else if k == 8 {
        '\u{1f606}'
    } else if k == 9 {
        '\u{1f61b}'
    } else if k == 10 {
        '\u{1f61c}'
    } else if k == 11 {
        '\u{1f61d}'
    } else if k == 12 {
        '\u{1f610}'
    } else if k == 13 {
        '\u{1f62e}'
    } else {
        'a'
    }
}

/// An emoticon's emoji starts with its face's first character, and the
/// emoticon is recognised from its face.
proof fn lemma_face(w: Seq<char>, u: bool)
    requires
        emoticon_key(w),
    ensures
        0 <= face_index(w) < 14,
        stack_processor_spec(w, u, true).len() > 0,
        stack_processor_spec(w, u, true)[0] == face_first(face_index(w)),
        face_index(w) == 9 ==> w == ":p"@ || w == ":P"@,
        face_index(w) == 10 ==> w == ";p"@ || w == ";P"@,
        face_index(w) != 9 && face_index(w) != 10 ==> forall|v: Seq<char>| #![trigger emoticon_key(v), face_index(v)] emoticon_key(v) && face_index(v) == face_index(w) ==> v == w,
        (w.len() == 2 && (w[1] == 'p' || w[1] == 'P')) ==> (face_index(w) == 9 || face_index(w) == 10 || face_index(w) == 11),
        face_index(w) == 9 ==> w[0] == ':',
        face_index(w) == 10 ==> w[0] == ';',
        face_index(w) == 11 ==> w[0] == 'x' && w == "xP"@,
        stack_processor_spec(w, u, true) == emoticon_spec(w),
        w[0] != face_first(face_index(w)),
        stack_processor_spec(w, u, false) == w,
        face_index(w) == 9 ==> emoticon_spec(w) == "\u{1f61b}"@,
        face_index(w) == 10 ==> emoticon_spec(w) == "\u{1f61c}"@,
        face_index(w) == 9 || face_index(w) == 10 ==> w.len() == 2 && (w[1] == 'p' || w[1] == 'P'),
{
    lemma_emoji_texts();
    lemma_emoticon_keys_ascii(w);
    reveal_strlit("<3");
    reveal_strlit(">:)");
    reveal_strlit(">:(");
    reveal_strlit(":)");
    reveal_strlit(":(");
    reveal_strlit(":/");
    reveal_strlit(";)");
    reveal_strlit(":D");
    reveal_strlit("xD");
    reveal_strlit(":p");
    reveal_strlit(":P");
    reveal_strlit(";p");
    reveal_strlit(";P");
    reveal_strlit("xP");
    reveal_strlit(":|");
    reveal_strlit(":O");
    reveal_strlit("&amp;");
    reveal_strlit("&lt;");
    reveal_strlit("&gt;");
    reveal_strlit("&quot;");
    reveal_strlit("&#x27;");
    reveal_strlit("&nbsp;");
    assert(w != "&amp;"@ && w != "&lt;"@ && w != "&gt;"@ && w != "&quot;"@ && w != "&#x27;"@ && w != "&nbsp;"@) by {
        assert(w[0] != "&amp;"@[0]);
    }
}

/// Each ASCII emoticon turns into an emoji of its own: two emoticons give the
/// same emoji exactly when they differ at most in the case of a final `p`;
/// the emoji is never the emoticon itself; and without emojis an emoticon
/// is kept as typed.
pub proof fn lemma_emoticons_map_to_their_own_emoji(w1: Seq<char>, w2: Seq<char>, unescape_html: bool)
    requires
        emoticon_key(w1),
        emoticon_key(w2),
    ensures
        (stack_processor_spec(w1, unescape_html, true) == stack_processor_spec(w2, unescape_html, true)) <==> same_face(w1, w2),
        stack_processor_spec(w1, unescape_html, true) != w1,
        stack_processor_spec(w1, unescape_html, false) == w1,
{
    lemma_face(w1, unescape_html);
    lemma_face(w2, unescape_html);
    let k1 = face_index(w1);
    let k2 = face_index(w2);
    if k1 == k2 {
        if k1 == 9 || k1 == 10 {
            assert(emoticon_spec(w1) == emoticon_spec(w2));
            assert(same_face(w1, w2));
        } else {
            assert(emoticon_key(w2) && face_index(w2) == face_index(w1));
            assert(w1 == w2);
        }
    } else {
        assert(face_first(k1) != face_first(k2));
        assert(stack_processor_spec(w1, unescape_html, true)[0] != stack_processor_spec(w2, unescape_html, true)[0]);
        if same_face(w1, w2) {
            assert(w1 != w2);
            assert(k1 == 9 || k1 == 10 || k1 == 11);
            assert(k2 == 9 || k2 == 10 || k2 == 11);
            assert(w1[0] == w2[0]);
        }
    }
}

/// A character with any of the five Unicode emoji properties, or the
/// zero-width joiner, may stand in an emoji; no other character may.
pub proof fn lemma_emoji_characters(c: char)
    ensures
        emoji_char(c) <==> (emoji_property(c) || emoji_component_property(c) || emoji_modifier_property(c)
            || emoji_modifier_base_property(c) || emoji_presentation_property(c) || c == '\u{200d}'),
{
}

/// A text whose grapheme clusters, trimmed, are made of characters with the
/// Unicode emoji properties (an emoji followed by the variation selector
/// U+FE0F, an `Emoji_Component`, among them), and that has no bare ASCII
/// letter or digit, is only emojis.
pub proof fn lemma_emoji_property_text_is_only_emojis(s: Seq<char>)
    requires
        forall|i: int| 0 <= i < grapheme_clusters(trim_spec(s)).len() ==> !bare_ascii_alphanumeric(
            #[trigger] grapheme_clusters(trim_spec(s))[i],
        ),
        forall|i: int, k: int|
            0 <= i < grapheme_clusters(trim_spec(s)).len() && 0 <= k < trim_spec(grapheme_clusters(trim_spec(s))[i]).len()
                ==> {
                let c = #[trigger] trim_spec(grapheme_clusters(trim_spec(s))[i])[k];
                emoji_property(c) || emoji_component_property(c) || emoji_modifier_property(c)
                    || emoji_modifier_base_property(c) || emoji_presentation_property(c) || c == '\u{200d}'
            },
    ensures
        is_only_emojis_spec(s),
        emoji_characters_only_spec(s),
{
    let cs = grapheme_clusters(trim_spec(s));
    assert forall|i: int| 0 <= i < cs.len() implies all_emoji_chars(trim_spec(#[trigger] cs[i])) by {
        assert forall|k: int| 0 <= k < trim_spec(cs[i]).len() implies emoji_char(#[trigger] trim_spec(cs[i])[k]) by {
            let c = trim_spec(cs[i])[k];
            assert(emoji_property(c) || emoji_component_property(c) || emoji_modifier_property(c)
                || emoji_modifier_base_property(c) || emoji_presentation_property(c) || c == '\u{200d}');
        }
    }
}

/// Parts that concatenate to nothing are all empty.
proof fn lemma_concat_all_empty(parts: Seq<Seq<char>>)
    requires
        concat_all(parts).len() == 0,
    ensures
        forall|i: int| 0 <= i < parts.len() ==> (#[trigger] parts[i]).len() == 0,
    decreases parts.len(),
{
    if parts.len() > 0 {
        let p = parts.drop_last();
        lemma_concat_all_empty(p);
        assert forall|i: int| 0 <= i < parts.len() implies (#[trigger] parts[i]).len() == 0 by {
            if i < p.len() {
                assert(parts[i] == p[i]);
            }
        }
    }
}

} // verus!
