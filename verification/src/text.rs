//! Text helpers: character pushes, escaping, tag stripping and title-casing.
use vstd::prelude::*;

verus! {

/// `String::push` appends one character at the end.
pub assume_specification[ String::push ](s: &mut String, ch: char)
    ensures
        final(s)@ == old(s)@.push(ch),
;

/// `str == str` compares the two strings character by character.
pub assume_specification[ <str as PartialEq>::eq ](a: &str, b: &str) -> (res: bool)
    ensures
        res == (a@ == b@),
;

/// The characters that escape one character of text for HTML.
pub open spec fn escape_char(c: char) -> Seq<char> {
    if c == '&' {
        seq!['&', 'a', 'm', 'p', ';']
    } else if c == '<' {
        seq!['&', 'l', 't', ';']
    } else if c == '>' {
        seq!['&', 'g', 't', ';']
    } else if c == '"' {
        seq!['&', 'q', 'u', 'o', 't', ';']
    } else {
        seq![c]
    }
}

/// A text with `&`, `<`, `>` and `"` replaced by their HTML entities.
pub open spec fn html_escaped(s: Seq<char>) -> Seq<char>
    decreases s.len(),
{
    if s.len() == 0 {
        Seq::empty()
    } else {
        html_escaped(s.drop_last()) + escape_char(s.last())
    }
}

fn push_literal(out: &mut String, lit: &str)
    ensures
        final(out)@ == old(out)@ + lit@,
{
    out.append(lit);
}

/// Escapes `&`, `<`, `>` and `"` for use inside an HTML attribute.
pub fn html_escape(s: &str) -> (res: String)
    ensures
        res@ == html_escaped(s@),
{
    let mut out = String::new();
    for c in iter: s.chars()
        invariant
            iter.seq() == s@,
            out@ == html_escaped(s@.take(iter.index() as int)),
    {
        proof {
            let i = iter.index() as int;
            assert(s@.take(i + 1).drop_last() =~= s@.take(i));
        }
        if c == '&' {
            push_literal(&mut out, "&amp;");
            proof { reveal_strlit("&amp;"); }
        } else if c == '<' {
            push_literal(&mut out, "&lt;");
            proof { reveal_strlit("&lt;"); }
        } else if c == '>' {
            push_literal(&mut out, "&gt;");
            proof { reveal_strlit("&gt;"); }
        } else if c == '"' {
            push_literal(&mut out, "&quot;");
            proof { reveal_strlit("&quot;"); }
        } else {
            out.push(c);
        }
    }
    proof { assert(s@.take(s@.len() as int) =~= s@); }
    out
}


/// Whether the scan of `s` from its start ends inside a tag: after a `<`
/// not yet closed by a `>`.
pub open spec fn inside_tag_after(s: Seq<char>) -> bool
    decreases s.len(),
{
    if s.len() == 0 {
        false
    } else if s.last() == '<' {
        true
    } else if s.last() == '>' {
        false
    } else {
        inside_tag_after(s.drop_last())
    }
}

/// The characters of `s` that stand outside `<...>` tags; the angle
/// brackets themselves are dropped.
pub open spec fn tags_stripped(s: Seq<char>) -> Seq<char>
    decreases s.len(),
{
    if s.len() == 0 {
        Seq::empty()
    } else {
        let prev = s.drop_last();
        let c = s.last();
        if c == '<' || c == '>' || inside_tag_after(prev) {
            tags_stripped(prev)
        } else {
            tags_stripped(prev).push(c)
        }
    }
}

/// Removes HTML tags from `html`: every character from a `<` up to the next
/// `>` (both included) is dropped, the rest is kept in order.
pub fn strip_html_tags(html: &str) -> (res: String)
    ensures
        res@ == tags_stripped(html@),
{
    let mut out = String::new();
    let mut inside_tag = false;
    for ch in iter: html.chars()
        invariant
            iter.seq() == html@,
            out@ == tags_stripped(html@.take(iter.index() as int)),
            inside_tag == inside_tag_after(html@.take(iter.index() as int)),
    {
        proof {
            let i = iter.index() as int;
            assert(html@.take(i + 1).drop_last() =~= html@.take(i));
        }
        if ch == '<' {
            inside_tag = true;
        } else if ch == '>' {
            inside_tag = false;
        } else if !inside_tag {
            out.push(ch);
        }
    }
    proof { assert(html@.take(html@.len() as int) =~= html@); }
    out
}

/// The first `n` characters of `s`, or all of them when it is shorter.
pub open spec fn prefix_chars(s: Seq<char>, n: nat) -> Seq<char> {
    if s.len() <= n { s } else { s.take(n as int) }
}

/// Copies at most the first `n` characters of `s`.
pub fn take_chars(s: &str, n: usize) -> (res: String)
    ensures
        res@ == prefix_chars(s@, n as nat),
{
    let mut out = String::new();
    let mut count: usize = 0;
    for ch in iter: s.chars()
        invariant
            iter.seq() == s@,
            count <= n,
            count == (if iter.index() <= n { iter.index() as int } else { n as int }),
            out@ == s@.take(count as int),
    {
        if count < n {
            out.push(ch);
            count = count + 1;
            proof { assert(out@ =~= s@.take(count as int)); }
        }
    }
    proof {
        if s@.len() <= n { assert(s@.take(s@.len() as int) =~= s@); }
    }
    out
}


/// What `char::to_uppercase` yields for `c`: its Unicode uppercase mapping,
/// one or more characters.
pub uninterp spec fn uppercase_of(c: char) -> Seq<char>;

/// Calls `char::to_uppercase` on `c` and collects what it yields. Trusted:
/// the result is the Unicode uppercase mapping of `c`; for an ASCII
/// character the standard library documents it as `to_ascii_uppercase`:
/// `a`..=`z` become `A`..=`Z`, every other ASCII character stays itself.
#[verifier::external_body]
fn char_to_uppercase(c: char) -> (res: String)
    ensures
        res@ == uppercase_of(c),
        'a' <= c && c <= 'z' ==> res@ == seq![((c as u32) - 32) as char],
        (c as u32) < 128 && !('a' <= c && c <= 'z') ==> res@ == seq![c],
{
    c.to_uppercase().collect()
}

/// The upper-case form of one character, as `char::to_uppercase` yields
/// it: for ASCII, `a`..=`z` become `A`..=`Z` and every other character stays
/// itself. Calling it tells a caller what `uppercase_of` is on `c`, and so
/// what the title-casing functions give.
pub fn uppercase_char(c: char) -> (res: String)
    ensures
        res@ == uppercase_of(c),
        'a' <= c && c <= 'z' ==> res@ == seq![((c as u32) - 32) as char],
        (c as u32) < 128 && !('a' <= c && c <= 'z') ==> res@ == seq![c],
{
    char_to_uppercase(c)
}

/// The pieces of `s` between occurrences of `sep`, as `str::split` gives
/// them: one more piece than there are separators, empty pieces included.
pub open spec fn split_on(s: Seq<char>, sep: char) -> Seq<Seq<char>>
    decreases s.len(),
{
    if s.len() == 0 {
        seq![Seq::<char>::empty()]
    } else {
        let pieces = split_on(s.drop_last(), sep);
        if s.last() == sep {
            pieces.push(Seq::empty())
        } else {
            pieces.drop_last().push(pieces.last().push(s.last()))
        }
    }
}

/// The pieces joined with `sep` between each two of them.
pub open spec fn join_with(pieces: Seq<Seq<char>>, sep: Seq<char>) -> Seq<char>
    decreases pieces.len(),
{
    if pieces.len() == 0 {
        Seq::empty()
    } else if pieces.len() == 1 {
        pieces[0]
    } else {
        join_with(pieces.drop_last(), sep) + sep + pieces.last()
    }
}

/// A word with its first character upper-cased.
pub open spec fn capitalized(w: Seq<char>) -> Seq<char> {
    if w.len() == 0 {
        Seq::empty()
    } else {
        uppercase_of(w[0]) + w.drop_first()
    }
}

/// `s` split at `sep`, each piece capitalized, joined with single spaces.
pub open spec fn title_cased(s: Seq<char>, sep: char) -> Seq<char> {
    join_with(split_on(s, sep).map_values(|w: Seq<char>| capitalized(w)), seq![' '])
}

proof fn lemma_split_on_nonempty(s: Seq<char>, sep: char)
    ensures
        split_on(s, sep).len() >= 1,
    decreases s.len(),
{
    if s.len() > 0 {
        lemma_split_on_nonempty(s.drop_last(), sep);
    }
}

/// Upper-cases the first character of `w` and keeps the rest.
pub fn capitalize(w: &str) -> (res: String)
    ensures
        res@ == capitalized(w@),
{
    let mut out = String::new();
    let mut first = true;
    for ch in iter: w.chars()
        invariant
            iter.seq() == w@,
            first == (iter.index() == 0),
            iter.index() > 0 ==> out@ == uppercase_of(w@[0]) + w@.subrange(1, iter.index() as int),
            iter.index() == 0 ==> out@.len() == 0,
    {
        if first {
            let up = char_to_uppercase(ch);
            out.append(up.as_str());
            first = false;
            proof { assert(out@ =~= uppercase_of(w@[0]) + w@.subrange(1, 1)); }
        } else {
            let ghost before = out@;
            out.push(ch);
            proof {
                let i = iter.index() as int;
                assert(out@ =~= uppercase_of(w@[0]) + w@.subrange(1, i + 1));
            }
        }
    }
    proof {
        if w@.len() > 0 {
            assert(w@.subrange(1, w@.len() as int) =~= w@.drop_first());
        }
    }
    out
}

/// Splits `s` at every `sep`, capitalizes each piece and joins the pieces
/// with single spaces, as `s.split(sep).map(capitalize).join(" ")` does.
pub fn title_case(s: &str, sep: char) -> (res: String)
    ensures
        res@ == title_cased(s@, sep),
{
    let mut pieces: Vec<String> = Vec::new();
    let mut cur = String::new();
    for ch in iter: s.chars()
        invariant
            iter.seq() == s@,
            pieces@.len() + 1 == split_on(s@.take(iter.index() as int), sep).len(),
            forall|k: int| 0 <= k < pieces@.len()
                ==> #[trigger] pieces@[k]@ == split_on(s@.take(iter.index() as int), sep)[k],
            cur@ == split_on(s@.take(iter.index() as int), sep).last(),
    {
        let ghost i = iter.index() as int;
        proof {
            assert(s@.take(i + 1).drop_last() =~= s@.take(i));
            lemma_split_on_nonempty(s@.take(i), sep);
        }
        if ch == sep {
            pieces.push(cur);
            cur = String::new();
        } else {
            cur.push(ch);
        }
    }
    pieces.push(cur);
    let ghost all = split_on(s@, sep);
    proof {
        assert(s@.take(s@.len() as int) =~= s@);
        lemma_split_on_nonempty(s@, sep);
    }
    assert(pieces@.len() == all.len());
    assert(forall|k: int| 0 <= k < pieces@.len() ==> #[trigger] pieces@[k]@ == all[k]);
    assert(strings_view(pieces@) =~= all);
    join_capitalized(&pieces)
}


/// What `slug::slugify` returns for a text: its transliteration to ASCII,
/// lower-cased, with each run of other characters turned into one `-`.
pub uninterp spec fn slug_of(s: Seq<char>) -> Seq<char>;

/// A character that may stand in a slug.
pub open spec fn is_slug_char(c: char) -> bool {
    ('a' <= c && c <= 'z') || ('0' <= c && c <= '9') || c == '-'
}

/// Calls `slug::slugify`. Trusted: its result is named `slug_of`, and, as
/// the crate documents, it consists of `a`-`z`, `0`-`9` and `-`, never holds
/// two `-` in a row and never starts or ends with `-`. How non-ASCII
/// characters are transliterated is left unsaid.
#[verifier::external_body]
pub(crate) fn slugify(s: &str) -> (res: String)
    ensures
        res@ == slug_of(s@),
        forall|i: int| 0 <= i < res@.len() ==> is_slug_char(#[trigger] res@[i]),
        forall|i: int| 0 <= i < res@.len() - 1 ==> !(#[trigger] res@[i] == '-' && res@[i + 1] == '-'),
        res@.len() > 0 ==> res@[0] != '-' && res@.last() != '-',
{
    slug::slugify(s)
}


/// Strings as character sequences.
pub open spec fn strings_view(ws: Seq<String>) -> Seq<Seq<char>> {
    ws.map_values(|w: String| w@)
}

/// Capitalizes each piece and joins them with single spaces.
pub fn join_capitalized(pieces: &Vec<String>) -> (res: String)
    ensures
        res@ == join_with(strings_view(pieces@).map_values(|w: Seq<char>| capitalized(w)), seq![' ']),
{
    let ghost all = strings_view(pieces@);
    let ghost caps = all.map_values(|w: Seq<char>| capitalized(w));
    if pieces.len() == 0 {
        return String::new();
    }
    let mut out = capitalize(pieces[0].as_str());
    let mut j: usize = 1;
    proof { assert(caps.take(1) =~= seq![caps[0]]); }
    while j < pieces.len()
        invariant
            1 <= j <= pieces@.len(),
            all == strings_view(pieces@),
            caps == all.map_values(|w: Seq<char>| capitalized(w)),
            out@ == join_with(caps.take(j as int), seq![' ']),
        decreases pieces@.len() - j,
    {
        let w = capitalize(pieces[j].as_str());
        out.push(' ');
        out.append(w.as_str());
        proof {
            assert(caps.take(j + 1).drop_last() =~= caps.take(j as int));
            assert(out@ =~= join_with(caps.take(j as int), seq![' ']) + seq![' '] + caps[j as int]);
        }
        j = j + 1;
    }
    proof { assert(caps.take(caps.len() as int) =~= caps); }
    out
}

/// Whether `c` has the Unicode `White_Space` property, as
/// `char::is_whitespace` reports.
pub uninterp spec fn is_unicode_whitespace(c: char) -> bool;

/// Calls `char::is_whitespace`. Trusted: the result is named
/// `is_unicode_whitespace`; among ASCII characters exactly the space and
/// `\t`, `\n`, `\u{0B}`, `\u{0C}`, `\r` have the property.
#[verifier::external_body]
fn char_is_whitespace(c: char) -> (res: bool)
    ensures
        res == is_unicode_whitespace(c),
        (c as u32) < 128 ==> (res <==> (c == ' ' || ('\t' <= c && c <= '\r'))),
{
    c.is_whitespace()
}

/// The words of `s` as `str::split_whitespace` gives them: the maximal runs
/// of characters that are not whitespace, in order.
pub open spec fn ws_words(s: Seq<char>) -> Seq<Seq<char>>
    decreases s.len(),
{
    if s.len() == 0 {
        Seq::empty()
    } else {
        let w = ws_words(s.drop_last());
        let c = s.last();
        if is_unicode_whitespace(c) {
            w
        } else if s.len() == 1 || is_unicode_whitespace(s[s.len() - 2]) {
            w.push(seq![c])
        } else {
            w.drop_last().push(w.last().push(c))
        }
    }
}

/// Splits `s` into its whitespace-separated words.
pub fn split_whitespace_words(s: &str) -> (res: Vec<String>)
    ensures
        strings_view(res@) == ws_words(s@),
{
    let mut words: Vec<String> = Vec::new();
    let mut cur = String::new();
    let mut in_word = false;
    for c in iter: s.chars()
        invariant
            iter.seq() == s@,
            in_word == (iter.index() > 0 && !is_unicode_whitespace(s@[iter.index() - 1])),
            in_word ==> strings_view(words@).push(cur@) == ws_words(s@.take(iter.index() as int)),
            !in_word ==> strings_view(words@) == ws_words(s@.take(iter.index() as int)) && cur@.len() == 0,
    {
        let ghost i = iter.index() as int;
        let ghost before = strings_view(words@);
        proof {
            assert(s@.take(i + 1).drop_last() =~= s@.take(i));
            assert(s@.take(i + 1).last() == c);
            if i > 0 {
                assert(s@.take(i + 1)[i - 1] == s@[i - 1]);
            }
        }
        if char_is_whitespace(c) {
            if in_word {
                let ghost pushed = cur@;
                words.push(cur);
                cur = String::new();
                in_word = false;
                proof { assert(strings_view(words@) =~= before.push(pushed)); }
            }
        } else {
            let ghost old_cur = cur@;
            cur.push(c);
            if !in_word {
                proof { assert(old_cur =~= Seq::<char>::empty()); assert(cur@ =~= seq![c]); }
            }
            in_word = true;
            proof {
                assert(strings_view(words@).push(cur@) =~= ws_words(s@.take(i + 1)));
            }
        }
    }
    proof { assert(s@.take(s@.len() as int) =~= s@); }
    if in_word {
        let ghost before = strings_view(words@);
        words.push(cur);
        proof { assert(strings_view(words@) =~= before.push(words@.last()@)); }
    }
    words
}

} // verus!
