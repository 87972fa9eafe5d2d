//! Tags and links in the text of a Markdown file.
//!
//! Where the tags and the links stand is said by two regular expressions, which
//! the `regex` crate matches. What it finds is named, not computed, in the
//! contracts; how the found text is cut into tags and links is proved.

use crate::text::to_chars;
use crate::text::trim;
use crate::text::trim_range;
use crate::text::find_text;
use crate::text::lemma_position_of;
use crate::text::texts;
use regex::Regex;
use vstd::prelude::*;

verus! {

/// The front matter with the line of tags; group 1 is the list of tags.
pub const TAG_PATTERN: &'static str = r"---\n\s*tags: (.*?)\n---";

/// A link `[[page]]` or `[[page | label]]`; group 1 is the page.
pub const LINK_PATTERN: &'static str = r"\[\[(.*?)(?:\s*\|.*?)?\]\]";

/// The text of group `group` in the first match of the regular expression
/// `pattern` in `text`. There is none where `pattern` is no regular expression,
/// where it does not match, and where the group has no part in the match.
pub uninterp spec fn first_capture(pattern: Seq<char>, text: Seq<char>, group: nat) -> Option<
    Seq<char>,
>;

/// For each of the successive matches of the regular expression `pattern` in
/// `text`, the text of group `group`, if the group has a part in the match.
/// There is no match where `pattern` is no regular expression.
pub uninterp spec fn all_captures(pattern: Seq<char>, text: Seq<char>, group: nat) -> Seq<
    Option<Seq<char>>,
>;

/// The model of a text that may be missing.
pub open spec fn option_text(text: Option<String>) -> Option<Seq<char>> {
    match text {
        Some(text) => Some(text@),
        None => None,
    }
}

/// The models of texts that may be missing.
pub open spec fn option_texts(list: Seq<Option<String>>) -> Seq<Option<Seq<char>>> {
    list.map_values(|text: Option<String>| option_text(text))
}

/// `Regex::new` and `Regex::captures`: compiles `pattern`, searches `text` for
/// its first match and copies what group `group` matched.
#[verifier::external_body]
fn regex_captures(pattern: &str, text: &str, group: usize) -> (found: Option<String>)
    ensures
        option_text(found) == first_capture(pattern@, text@, group as nat),
{
    Regex::new(pattern).ok()?.captures(text)?.get(group).map(|m| m.as_str().to_string())
}

/// `Regex::new` and `Regex::captures_iter`: compiles `pattern`, searches `text`
/// for its successive matches and copies what group `group` matched in each.
#[verifier::external_body]
fn regex_captures_iter(pattern: &str, text: &str, group: usize) -> (found: Vec<Option<String>>)
    ensures
        option_texts(found@) == all_captures(pattern@, text@, group as nat),
{
    match Regex::new(pattern) {
        Ok(re) => re.captures_iter(text).map(|c| c.get(group).map(|m| m.as_str().to_string())).collect(),
        Err(_) => Vec::new(),
    }
}

/// The index of the first `c` in `s`, or the length of `s` where there is none.
pub open spec fn first_at(s: Seq<char>, c: char) -> int
    decreases s.len(),
{
    if s.len() == 0 || s.first() == c {
        0
    } else {
        1 + first_at(s.drop_first(), c)
    }
}

/// `first_at` is an index of `s` or its length.
pub proof fn lemma_first_at_bounds(s: Seq<char>, c: char)
    ensures
        0 <= first_at(s, c) <= s.len(),
    decreases s.len(),
{
    if s.len() > 0 && s.first() != c {
        lemma_first_at_bounds(s.drop_first(), c);
    }
}

/// The parts of `s` between the occurrences of `c`.
pub open spec fn pieces(s: Seq<char>, c: char) -> Seq<Seq<char>>
    decreases s.len(),
{
    let i = first_at(s, c);
    if 0 <= i < s.len() {
        seq![s.take(i)] + pieces(s.skip(i + 1), c)
    } else {
        seq![s]
    }
}

/// The tags in a list of tags: the trimmed list is cut at its commas, and each
/// part is trimmed.
pub open spec fn split_tags(list: Seq<char>) -> Seq<Seq<char>> {
    pieces(trim(list), ',').map_values(|part: Seq<char>| trim(part))
}

/// The tags of a file with the text `contents`.
pub open spec fn tags_in(contents: Seq<char>) -> Seq<Seq<char>> {
    match first_capture(TAG_PATTERN@, contents, 1) {
        Some(list) => split_tags(list),
        None => Seq::empty(),
    }
}

/// The links among what was captured: each capture trimmed, a missing one taken
/// as empty, without the empty ones and without those that came before.
pub open spec fn distinct_links(captures: Seq<Option<Seq<char>>>) -> Seq<Seq<char>>
    decreases captures.len(),
{
    if captures.len() == 0 {
        Seq::empty()
    } else {
        let before = distinct_links(captures.drop_last());
        let link = match captures.last() {
            Some(text) => trim(text),
            None => Seq::empty(),
        };
        if link.len() == 0 || before.contains(link) {
            before
        } else {
            before.push(link)
        }
    }
}

/// The links of a file with the text `contents`.
pub open spec fn links_in(contents: Seq<char>) -> Seq<Seq<char>> {
    distinct_links(all_captures(LINK_PATTERN@, contents, 1))
}

/// Where nothing before index `m` is `c` and `m` is the end or holds `c`, the
/// first `c` is at `m`.
proof fn lemma_first_at(s: Seq<char>, c: char, m: int)
    requires
        0 <= m <= s.len(),
        forall|k: int| 0 <= k < m ==> s[k] != c,
        m < s.len() ==> s[m] == c,
    ensures
        first_at(s, c) == m,
    decreases m,
{
    if m > 0 {
        let rest = s.drop_first();
        assert forall|k: int| 0 <= k < m - 1 implies rest[k] != c by {
            assert(rest[k] == s[k + 1]);
        }
        lemma_first_at(rest, c, m - 1);
    }
}

/// The trimmed text of the part `lo..hi` of `text`, whose characters are `chars`.
fn trimmed_part(text: &str, chars: &[char], lo: usize, hi: usize) -> (part: String)
    requires
        chars@ == text@,
        lo <= hi <= chars@.len(),
    ensures
        part@ == trim(chars@.subrange(lo as int, hi as int)),
{
    let (a, b) = trim_range(chars, lo, hi);
    text.substring_char(a, b).to_owned()
}

/// The tags in the list of tags `captured`.
pub fn tags_of_capture(captured: &str) -> (tags: Vec<String>)
    ensures
        texts(tags@) == split_tags(captured@),
{
    let chars = to_chars(captured);
    let (lo, hi) = trim_range(chars.as_slice(), 0, chars.len());
    assert(chars@.subrange(0, chars@.len() as int) == chars@);
    let ghost list = chars@.subrange(lo as int, hi as int);
    let mut tags: Vec<String> = Vec::new();
    let mut start: usize = lo;
    let mut i: usize = lo;
    assert(list.skip(0) == list);
    while i < hi
        invariant
            lo <= start <= i <= hi <= chars@.len(),
            chars@ == captured@,
            list == chars@.subrange(lo as int, hi as int),
            forall|k: int| start <= k < i ==> chars@[k] != ',',
            split_tags(captured@) == texts(tags@) + pieces(list.skip(start - lo), ',').map_values(
                |part: Seq<char>| trim(part),
            ),
        decreases hi - i,
    {
        if chars[i] == ',' {
            let ghost rest = list.skip(start - lo);
            let ghost prior = tags@;
            proof {
                assert forall|k: int| 0 <= k < i - start implies rest[k] != ',' by {
                    assert(rest[k] == chars@[start + k]);
                }
                lemma_first_at(rest, ',', i - start);
                assert(rest.take(i - start) == chars@.subrange(start as int, i as int));
                assert(rest.skip(i - start + 1) == list.skip(i + 1 - lo));
            }
            let tag = trimmed_part(captured, chars.as_slice(), start, i);
            tags.push(tag);
            proof {
                let cut = |part: Seq<char>| trim(part);
                let tail = pieces(list.skip(i + 1 - lo), ',');
                assert(texts(prior.push(tag)) == texts(prior).push(tag@));
                assert((seq![rest.take(i - start)] + tail).map_values(cut) == seq![tag@]
                    + tail.map_values(cut));
                assert(texts(prior) + (seq![tag@] + tail.map_values(cut)) == texts(prior).push(
                    tag@,
                ) + tail.map_values(cut));
            }
            start = i + 1;
        }
        i += 1;
    }
    let ghost rest = list.skip(start - lo);
    let ghost prior = tags@;
    proof {
        assert forall|k: int| 0 <= k < hi - start implies rest[k] != ',' by {
            assert(rest[k] == chars@[start + k]);
        }
        lemma_first_at(rest, ',', hi - start);
        assert(rest == chars@.subrange(start as int, hi as int));
    }
    let tag = trimmed_part(captured, chars.as_slice(), start, hi);
    tags.push(tag);
    proof {
        let cut = |part: Seq<char>| trim(part);
        assert(texts(prior.push(tag)) == texts(prior).push(tag@));
        assert(seq![rest].map_values(cut) == seq![tag@]);
        assert(texts(prior) + seq![tag@] == texts(prior).push(tag@));
    }
    tags
}

/// The tags of a file with the text `contents`.
pub fn search_tags(contents: &str) -> (tags: Vec<String>)
    ensures
        texts(tags@) == tags_in(contents@),
{
    match regex_captures(TAG_PATTERN, contents, 1) {
        Some(list) => tags_of_capture(list.as_str()),
        None => {
            let tags: Vec<String> = Vec::new();
            assert(texts(tags@) == Seq::<Seq<char>>::empty());
            tags
        },
    }
}

/// The links among what was captured.
pub fn links_of_captures(captures: &Vec<Option<String>>) -> (links: Vec<String>)
    ensures
        texts(links@) == distinct_links(option_texts(captures@)),
{
    let ghost all = option_texts(captures@);
    let mut links: Vec<String> = Vec::new();
    let mut i: usize = 0;
    assert(texts(links@) == Seq::<Seq<char>>::empty());
    while i < captures.len()
        invariant
            i <= captures.len(),
            all == option_texts(captures@),
            texts(links@) == distinct_links(all.take(i as int)),
        decreases captures.len() - i,
    {
        assert(all.take(i + 1).drop_last() == all.take(i as int));
        assert(all.take(i + 1).last() == option_text(captures@[i as int]));
        match &captures[i] {
            Some(text) => {
                let chars = to_chars(text.as_str());
                assert(chars@.subrange(0, chars@.len() as int) == chars@);
                let link = trimmed_part(text.as_str(), chars.as_slice(), 0, chars.len());
                proof {
                    lemma_position_of(texts(links@), link@);
                }
                if link.as_str().unicode_len() != 0 && find_text(&links, &link).is_none() {
                    let ghost prior = links@;
                    links.push(link);
                    assert(texts(prior.push(link)) == texts(prior).push(link@));
                }
            },
            None => {},
        }
        i += 1;
    }
    assert(all.take(all.len() as int) == all);
    links
}

/// The links of a file with the text `contents`.
pub fn search_links(contents: &str) -> (links: Vec<String>)
    ensures
        texts(links@) == links_in(contents@),
{
    let captures = regex_captures_iter(LINK_PATTERN, contents, 1);
    links_of_captures(&captures)
}

} // verus!
