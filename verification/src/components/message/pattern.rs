//! Searching text with the library's regular expressions.
use vstd::prelude::*;
use super::text::{lacks, lemma_lacks_concat};

verus! {

/// The regular expression that finds links: a `www.` or `http(s)://` URL, or
/// a `mailto:` address (group 3 is the `mailto:` prefix, group 4 the
/// address).
pub const LINK_TAGS_PATTERN: &'static str = r"((?:(?:www\.)|(?:https?:\/\/))[\w-]+(?:\.[\w-]+)+(?:\/[^)\s<]*)*)|((mailto: {0,1})([\w.+-]+@[\w-]+(?:\.[\w.-]+)+))";

/// The regular expression that finds block-quote markers (`&gt;`, escaped)
/// and a leading space at the start of the text or of a line (group 1 is the
/// line break, group 2 the markers or the space).
pub const MARKDOWN_PROCESSOR_PATTERN: &'static str = "(^|\n)((?:&gt;(?: *&gt;)*)|(?: ))";

/// One of the library's regular expressions, all of which compile.
pub open spec fn known_pattern(pattern: Seq<char>) -> bool {
    pattern == LINK_TAGS_PATTERN@ || pattern == MARKDOWN_PROCESSOR_PATTERN@
}

/// The characters of an optional string.
pub open spec fn opt_view(o: Option<String>) -> Option<Seq<char>> {
    match o {
        Some(s) => Some(s@),
        None => None,
    }
}

/// The capture groups of one match, by their view.
pub open spec fn groups_view(groups: Vec<Option<String>>) -> Seq<Option<Seq<char>>> {
    groups@.map_values(|g: Option<String>| opt_view(g))
}

/// Group `i` of a match, or `None` when it did not take part.
pub open spec fn group(c: Seq<Option<Seq<char>>>, i: int) -> Option<Seq<char>> {
    if 0 <= i < c.len() {
        c[i]
    } else {
        None
    }
}

/// The characters of an optional group, or nothing when it did not match.
pub open spec fn group_or_empty(g: Option<Seq<char>>) -> Seq<char> {
    match g {
        Some(s) => s,
        None => Seq::<char>::empty(),
    }
}

/// The piece `i` of `pieces`, or nothing when there is no such piece.
pub open spec fn piece_at(pieces: Seq<Seq<char>>, i: int) -> Seq<char> {
    if 0 <= i < pieces.len() {
        pieces[i]
    } else {
        Seq::<char>::empty()
    }
}

/// The first `n` pieces, each followed by its replacement.
pub open spec fn splice_prefix(pieces: Seq<Seq<char>>, reps: Seq<Seq<char>>, n: nat) -> Seq<char>
    decreases n,
{
    if n == 0 {
        Seq::<char>::empty()
    } else {
        splice_prefix(pieces, reps, (n - 1) as nat) + piece_at(pieces, n - 1) + reps[n - 1]
    }
}

/// The text between matches (`pieces`) interleaved with one replacement per
/// match (`reps`): what a regex `replace_all` gives.
pub open spec fn splice(pieces: Seq<Seq<char>>, reps: Seq<Seq<char>>) -> Seq<char> {
    splice_prefix(pieces, reps, reps.len()) + piece_at(pieces, reps.len() as int)
}

/// `x` is a contiguous part of `t`.
pub open spec fn part_of(x: Seq<char>, t: Seq<char>) -> bool {
    exists|a: int, b: int| 0 <= a <= b <= t.len() && x == t.subrange(a, b)
}

/// A part of a text lacking `c` lacks `c`.
pub proof fn lemma_part_of_lacks(x: Seq<char>, t: Seq<char>, c: char)
    requires
        part_of(x, t),
        lacks(t, c),
    ensures
        lacks(x, c),
{
    let (a, b) = choose|a: int, b: int| 0 <= a <= b <= t.len() && x == t.subrange(a, b);
    assert forall|i: int| 0 <= i < x.len() implies #[trigger] x[i] != c by {
        assert(x[i] == t[a + i]);
    }
}

/// Both sides of a concatenation lacking `c` lack `c`.
proof fn lemma_lacks_parts(a: Seq<char>, b: Seq<char>, c: char)
    requires
        lacks(a + b, c),
    ensures
        lacks(a, c),
        lacks(b, c),
{
    assert forall|i: int| 0 <= i < a.len() implies #[trigger] a[i] != c by {
        assert((a + b)[i] == a[i]);
    }
    assert forall|i: int| 0 <= i < b.len() implies #[trigger] b[i] != c by {
        assert((a + b)[a.len() + i] == b[i]);
    }
}

/// The pieces that a text lacking `c` splices from lack `c`.
pub proof fn lemma_splice_pieces_lack(pieces: Seq<Seq<char>>, reps: Seq<Seq<char>>, c: char)
    requires
        lacks(splice(pieces, reps), c),
    ensures
        forall|i: int| 0 <= i <= reps.len() ==> lacks(#[trigger] piece_at(pieces, i), c),
{
    lemma_lacks_parts(splice_prefix(pieces, reps, reps.len()), piece_at(pieces, reps.len() as int), c);
    lemma_splice_prefix_pieces_lack(pieces, reps, reps.len(), c);
}

proof fn lemma_splice_prefix_pieces_lack(pieces: Seq<Seq<char>>, reps: Seq<Seq<char>>, n: nat, c: char)
    requires
        n <= reps.len(),
        lacks(splice_prefix(pieces, reps, n), c),
    ensures
        forall|i: int| 0 <= i < n ==> lacks(#[trigger] piece_at(pieces, i), c),
    decreases n,
{
    if n > 0 {
        let prev = splice_prefix(pieces, reps, (n - 1) as nat);
        lemma_lacks_parts(prev + piece_at(pieces, n - 1), reps[n - 1], c);
        lemma_lacks_parts(prev, piece_at(pieces, n - 1), c);
        lemma_splice_prefix_pieces_lack(pieces, reps, (n - 1) as nat, c);
    }
}

/// Pieces and replacements lacking `c` splice into a text lacking `c`.
pub proof fn lemma_splice_lacks(pieces: Seq<Seq<char>>, reps: Seq<Seq<char>>, c: char)
    requires
        forall|i: int| 0 <= i <= reps.len() ==> lacks(#[trigger] piece_at(pieces, i), c),
        forall|j: int| 0 <= j < reps.len() ==> lacks(#[trigger] reps[j], c),
    ensures
        lacks(splice(pieces, reps), c),
{
    lemma_splice_prefix_lacks(pieces, reps, reps.len(), c);
    assert(lacks(piece_at(pieces, reps.len() as int), c));
    lemma_lacks_concat(splice_prefix(pieces, reps, reps.len()), piece_at(pieces, reps.len() as int), c);
}

proof fn lemma_splice_prefix_lacks(pieces: Seq<Seq<char>>, reps: Seq<Seq<char>>, n: nat, c: char)
    requires
        n <= reps.len(),
        forall|i: int| 0 <= i <= reps.len() ==> lacks(#[trigger] piece_at(pieces, i), c),
        forall|j: int| 0 <= j < reps.len() ==> lacks(#[trigger] reps[j], c),
    ensures
        lacks(splice_prefix(pieces, reps, n), c),
    decreases n,
{
    if n == 0 {
        assert(lacks(Seq::<char>::empty(), c));
    } else {
        let prev = splice_prefix(pieces, reps, (n - 1) as nat);
        lemma_splice_prefix_lacks(pieces, reps, (n - 1) as nat, c);
        assert(lacks(piece_at(pieces, n - 1), c));
        assert(lacks(reps[n - 1], c));
        lemma_lacks_concat(prev, piece_at(pieces, n - 1), c);
        lemma_lacks_concat(prev + piece_at(pieces, n - 1), reps[n - 1], c);
    }
}

/// A group of a match, when every group that takes part is a part of a text
/// lacking `c`, lacks `c` (a group that does not take part is empty).
pub proof fn lemma_group_lacks(groups: Vec<Option<String>>, g: int, t: Seq<char>, c: char)
    requires
        forall|k: int| 0 <= k < groups@.len() && (#[trigger] groups@[k]) is Some ==> part_of(groups@[k].unwrap()@, t),
        lacks(t, c),
    ensures
        lacks(group_or_empty(group(groups_view(groups), g)), c),
{
    let v = groups_view(groups);
    if 0 <= g < v.len() && v[g] is Some {
        assert(groups@[g] is Some);
        assert(v[g].unwrap() == groups@[g].unwrap()@);
        lemma_part_of_lacks(groups@[g].unwrap()@, t, c);
    } else {
        assert(group_or_empty(group(v, g)) == Seq::<char>::empty());
    }
}

/// The pieces of `text` between the matches of `pattern`.
pub uninterp spec fn regex_pieces(pattern: Seq<char>, text: Seq<char>) -> Seq<Seq<char>>;

/// The matches of `pattern` in `text`, in order, each with its capture
/// groups (group 0 is the whole match).
pub uninterp spec fn regex_matches(pattern: Seq<char>, text: Seq<char>) -> Seq<Seq<Option<Seq<char>>>>;

/// Trusted: compiles `pattern` with `regex::Regex::new` and calls
/// `Regex::split` on `text`. The pieces are named [`regex_pieces`].
#[verifier::external_body]
pub(crate) fn regex_split(pattern: &str, text: &str) -> (pieces: Vec<String>)
    requires
        known_pattern(pattern@),
    ensures
        pieces@.map_values(|p: String| p@) == regex_pieces(pattern@, text@),
{
    let re = regex::Regex::new(pattern).unwrap();
    re.split(text).map(|p| p.to_string()).collect()
}

/// Trusted: compiles `pattern` with `regex::Regex::new` and calls
/// `Regex::captures_iter` on `text`, keeping every capture group. The
/// matches are named [`regex_matches`]. The contract also states what the
/// regex documentation gives: group 0 is the whole match and always takes
/// part; `split` and `captures_iter` find the same matches, so the pieces
/// number one more than the matches and the text is the pieces interleaved
/// with the whole matches; every group that takes part is a part of the
/// text.
#[verifier::external_body]
pub(crate) fn regex_captures(pattern: &str, text: &str) -> (caps: Vec<Vec<Option<String>>>)
    requires
        known_pattern(pattern@),
    ensures
        caps@.map_values(|c: Vec<Option<String>>| groups_view(c)) == regex_matches(pattern@, text@),
        forall|i: int| 0 <= i < caps@.len() ==> (#[trigger] caps@[i])@.len() > 0 && caps@[i]@[0] is Some,
        regex_pieces(pattern@, text@).len() == caps@.len() + 1,
        splice(
            regex_pieces(pattern@, text@),
            caps@.map_values(|c: Vec<Option<String>>| group_or_empty(group(groups_view(c), 0))),
        ) == text@,
        forall|i: int, g: int|
            0 <= i < caps@.len() && 0 <= g < caps@[i]@.len() && (#[trigger] caps@[i]@[g]) is Some
                ==> part_of(caps@[i]@[g].unwrap()@, text@),
{
    let re = regex::Regex::new(pattern).unwrap();
    re.captures_iter(text).map(|c| c.iter().map(|g| g.map(|m| m.as_str().to_string())).collect()).collect()
}

} // verus!
