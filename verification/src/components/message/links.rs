//! Detection of URLs and e-mail addresses in HTML text, and their wrapping in
//! `<a>` tags.
use vstd::prelude::*;
use super::pattern::{
    group, group_or_empty, groups_view, opt_view, piece_at, regex_captures, regex_matches,
    regex_pieces, regex_split, splice, splice_prefix, LINK_TAGS_PATTERN,
};
use super::text::{
    append_chars, append_str, chars_to_string, count_char, count_char_exec, starts_with,
    starts_with_str, str_to_chars,
};

verus! {

/// `url` without trailing `)` characters that close no `(` of the URL.
pub open spec fn strip_unbalanced_parens(url: Seq<char>) -> Seq<char>
    decreases url.len(),
{
    if url.len() > 0 && url.last() == ')' && count_char(url, ')') > count_char(url, '(') {
        strip_unbalanced_parens(url.drop_last())
    } else {
        url
    }
}

/// An `<a>` tag that links to `href` and shows `shown`.
pub open spec fn anchor(href: Seq<char>, shown: Seq<char>) -> Seq<char> {
    "<a href=\""@ + href + "\">"@ + shown + "</a>"@
}

/// The HTML that replaces one link match, and the link that is recorded for
/// it: `mailto:` addresses are linked but not recorded; unbalanced closing
/// parentheses are cut off URLs; `www.` URLs link to `https://`.
pub open spec fn link_replacement(cap: Seq<Option<Seq<char>>>) -> (Seq<char>, Option<Seq<char>>) {
    let url = group_or_empty(group(cap, 0));
    if starts_with(url, "mailto:"@) {
        if starts_with(url, "mailto: "@) {
            (group_or_empty(group(cap, 3)) + anchor(url, group_or_empty(group(cap, 4))), None)
        } else {
            (anchor(url, url), None)
        }
    } else {
        let u = strip_unbalanced_parens(url);
        if starts_with(u, "www."@) {
            (anchor("https://"@ + u, u), Some("https://"@ + u))
        } else {
            (anchor(u, u), Some(u))
        }
    }
}

/// `url` is `u` followed by closing parentheses only.
pub open spec fn closing_parens_after(u: Seq<char>, url: Seq<char>) -> bool {
    &&& u.len() <= url.len()
    &&& url.take(u.len() as int) == u
    &&& forall|i: int| u.len() <= i < url.len() ==> #[trigger] url[i] == ')'
}

/// Dropping unbalanced closing parentheses only cuts `)` off the end.
proof fn lemma_strip_cuts_parens(url: Seq<char>)
    ensures
        closing_parens_after(strip_unbalanced_parens(url), url),
    decreases url.len(),
{
    if url.len() > 0 && url.last() == ')' && count_char(url, ')') > count_char(url, '(') {
        let p = url.drop_last();
        lemma_strip_cuts_parens(p);
        let u = strip_unbalanced_parens(p);
        assert(url.take(u.len() as int) =~= p.take(u.len() as int));
        assert forall|i: int| u.len() <= i < url.len() implies #[trigger] url[i] == ')' by {
            if i < p.len() {
                assert(url[i] == p[i]);
            }
        }
    } else {
        assert(url.take(url.len() as int) =~= url);
    }
}

/// A matched URL is linked and recorded as typed: the link recorded is the
/// anchor's target, the anchor shows the URL (with only unbalanced closing
/// parentheses cut off its end), and `https://` is put in front of the
/// target only when the URL starts with `www.`; any other URL (an `http://`
/// one among them) is its own target. A `mailto:` match is linked to the
/// match itself and records nothing.
pub proof fn lemma_link_target(cap: Seq<Option<Seq<char>>>)
    ensures
        ({
            let url = group_or_empty(group(cap, 0));
            let u = strip_unbalanced_parens(url);
            let (html, link) = link_replacement(cap);
            &&& closing_parens_after(u, url)
            &&& !starts_with(url, "mailto:"@) ==> {
                &&& link is Some
                &&& html == anchor(link.unwrap(), u)
                &&& starts_with(u, "www."@) ==> link.unwrap() == "https://"@ + u
                &&& !starts_with(u, "www."@) ==> link.unwrap() == u
            }
            &&& starts_with(url, "mailto:"@) ==> link is None && (html == anchor(url, url) || html
                == group_or_empty(group(cap, 3)) + anchor(url, group_or_empty(group(cap, 4))))
        }),
{
    lemma_strip_cuts_parens(group_or_empty(group(cap, 0)));
}

/// The links recorded for the first `n` matches.
pub open spec fn recorded_links(caps: Seq<Seq<Option<Seq<char>>>>, n: nat) -> Seq<Seq<char>>
    decreases n,
{
    if n == 0 {
        Seq::<Seq<char>>::empty()
    } else {
        let prev = recorded_links(caps, (n - 1) as nat);
        match link_replacement(caps[n - 1]).1 {
            Some(l) => prev.push(l),
            None => prev,
        }
    }
}

/// `text` with each link match replaced as [`link_replacement`] says.
pub open spec fn wrap_links_spec(text: Seq<char>) -> Seq<char> {
    splice(
        regex_pieces(LINK_TAGS_PATTERN@, text),
        link_matches(text).map_values(|c: Seq<Option<Seq<char>>>| link_replacement(c).0),
    )
}

/// The matches of [`LINK_TAGS_PATTERN`] in `text`.
pub open spec fn link_matches(text: Seq<char>) -> Seq<Seq<Option<Seq<char>>>> {
    regex_matches(LINK_TAGS_PATTERN@, text)
}

/// The links recorded while wrapping `text`.
pub open spec fn wrap_links_links(text: Seq<char>) -> Seq<Seq<char>> {
    recorded_links(link_matches(text), link_matches(text).len())
}

/// Removes trailing `)` characters that close no `(` of the URL.
fn strip_unbalanced_parens_exec(url: &Vec<char>) -> (r: Vec<char>)
    ensures
        r@ == strip_unbalanced_parens(url@),
{
    let mut u = url.clone();
    assert(u@ == url@);
    while u.len() > 0 && u[u.len() - 1] == ')'
        invariant
            strip_unbalanced_parens(u@) == strip_unbalanced_parens(url@),
        ensures
            strip_unbalanced_parens(u@) == u@,
        decreases u.len(),
    {
        let open = count_char_exec(&u, '(');
        let close = count_char_exec(&u, ')');
        if close > open {
            let ghost before = u@;
            u.pop();
            assert(u@ =~= before.drop_last());
        } else {
            break;
        }
    }
    u
}


/// Appends an `<a>` tag that links to `href` and shows `shown`.
pub fn push_anchor(out: &mut Vec<char>, href: &Vec<char>, shown: &Vec<char>)
    ensures
        final(out)@ == old(out)@ + anchor(href@, shown@),
{
    append_str(out, "<a href=\"");
    append_chars(out, href);
    append_str(out, "\">");
    append_chars(out, shown);
    append_str(out, "</a>");
    assert(final(out)@ =~= old(out)@ + anchor(href@, shown@));
}

/// The characters of an optional group, or none when it did not match.
fn group_chars(groups: &Vec<Option<String>>, i: usize) -> (r: Vec<char>)
    ensures
        r@ == group_or_empty(group(groups_view(*groups), i as int)),
{
    if i < groups.len() {
        match &groups[i] {
            Some(s) => str_to_chars(s.as_str()),
            None => Vec::new(),
        }
    } else {
        Vec::new()
    }
}

/// The HTML for one link match and the link recorded for it.
fn replace_link(cap: &Vec<Option<String>>) -> (r: (Vec<char>, Option<String>))
    ensures
        r.0@ == link_replacement(groups_view(*cap)).0,
        opt_view(r.1) == link_replacement(groups_view(*cap)).1,
{
    let url = group_chars(cap, 0);
    let mut html: Vec<char> = Vec::new();
    if starts_with_str(&url, "mailto:") {
        if starts_with_str(&url, "mailto: ") {
            let prefix = group_chars(cap, 3);
            let address = group_chars(cap, 4);
            append_chars(&mut html, &prefix);
            push_anchor(&mut html, &url, &address);
            assert(html@ =~= link_replacement(groups_view(*cap)).0);
        } else {
            push_anchor(&mut html, &url, &url);
            assert(html@ =~= link_replacement(groups_view(*cap)).0);
        }
        return (html, None);
    }
    let u = strip_unbalanced_parens_exec(&url);
    if starts_with_str(&u, "www.") {
        let mut href = str_to_chars("https://");
        append_chars(&mut href, &u);
        push_anchor(&mut html, &href, &u);
        assert(html@ =~= link_replacement(groups_view(*cap)).0);
        (html, Some(chars_to_string(&href)))
    } else {
        push_anchor(&mut html, &u, &u);
        assert(html@ =~= link_replacement(groups_view(*cap)).0);
        (html, Some(chars_to_string(&u)))
    }
}

/// Wraps every URL and `mailto:` address of `text` in an `<a>` tag, and
/// returns the links found (without the `mailto:` ones), in order.
pub fn wrap_links_with_a_tags(text: &str) -> (res: (String, Vec<String>))
    ensures
        res.0@ == wrap_links_spec(text@),
        res.1@.map_values(|l: String| l@) == wrap_links_links(text@),
        res.1@.len() <= link_matches(text@).len(),
        link_matches(text@).len() == 0 ==> res.0@ == text@ && res.1@.len() == 0,
{
    let pieces = regex_split(LINK_TAGS_PATTERN, text);
    let caps = regex_captures(LINK_TAGS_PATTERN, text);
    let ghost pv = regex_pieces(LINK_TAGS_PATTERN@, text@);
    let ghost cv = link_matches(text@);
    let ghost reps = cv.map_values(|c: Seq<Option<Seq<char>>>| link_replacement(c).0);
    let mut out: Vec<char> = Vec::new();
    let mut links: Vec<String> = Vec::new();
    let mut i: usize = 0;
    while i < caps.len()
        invariant
            i <= caps.len(),
            pieces@.map_values(|p: String| p@) == pv,
            caps@.map_values(|c: Vec<Option<String>>| groups_view(c)) == cv,
            reps == cv.map_values(|c: Seq<Option<Seq<char>>>| link_replacement(c).0),
            out@ == splice_prefix(pv, reps, i as nat),
            links@.map_values(|l: String| l@) == recorded_links(cv, i as nat),
            links@.len() <= i,
        decreases caps.len() - i,
    {
        if i < pieces.len() {
            let p = str_to_chars(pieces[i].as_str());
            append_chars(&mut out, &p);
        }
        let (html, link) = replace_link(&caps[i]);
        append_chars(&mut out, &html);
        assert(out@ =~= splice_prefix(pv, reps, (i + 1) as nat));
        match link {
            Some(l) => {
                links.push(l);
            },
            None => {},
        }
        assert(links@.map_values(|l: String| l@) =~= recorded_links(cv, (i + 1) as nat));
        i = i + 1;
    }
    if i < pieces.len() {
        let p = str_to_chars(pieces[i].as_str());
        append_chars(&mut out, &p);
    }
    assert(out@ =~= wrap_links_spec(text@));
    proof {
        if cv.len() == 0 {
            assert(caps@.map_values(|c: Vec<Option<String>>| group_or_empty(group(groups_view(c), 0))) =~= Seq::<Seq<char>>::empty());
            assert(reps =~= Seq::<Seq<char>>::empty());
        }
    }
    (chars_to_string(&out), links)
}

} // verus!
