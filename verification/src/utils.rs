//! String helpers shared by the rest of the crate: the order in which
//! identifiers are listed, and small pieces of text handling.

use vstd::prelude::*;
use vstd::std_specs::iter::IteratorSpec;
use vstd::string::*;

verus! {

/// `String::push` appends one character.
pub assume_specification[ String::push ](s: &mut String, ch: char)
    ensures
        final(s)@ == old(s)@.push(ch),
;

/// `String::pop` removes the last character and returns it, or returns
/// `None` and leaves an empty string as it is.
pub assume_specification[ String::pop ](s: &mut String) -> (last: Option<char>)
    ensures
        old(s)@.len() == 0 ==> last is None && final(s)@ == old(s)@,
        old(s)@.len() > 0 ==> last == Some(old(s)@.last()) && final(s)@ == old(s)@.drop_last(),
;

/// The strings of a list, each as the sequence of its characters.
pub open spec fn texts(list: Seq<String>) -> Seq<Seq<char>> {
    list.map_values(|s: String| s@)
}

/// Strict lexicographic order on strings, character by character by code
/// point; a proper prefix comes before the longer string.
pub open spec fn lex_lt(a: Seq<char>, b: Seq<char>) -> bool
    decreases a.len(),
{
    if b.len() == 0 {
        false
    } else if a.len() == 0 {
        true
    } else if a[0] != b[0] {
        a[0] < b[0]
    } else {
        lex_lt(a.drop_first(), b.drop_first())
    }
}

/// No string comes before itself.
pub proof fn lemma_lex_irreflexive(a: Seq<char>)
    ensures
        !lex_lt(a, a),
    decreases a.len(),
{
    if a.len() > 0 {
        lemma_lex_irreflexive(a.drop_first());
    }
}

/// Of two different strings exactly one comes before the other.
pub proof fn lemma_lex_total(a: Seq<char>, b: Seq<char>)
    ensures
        a != b ==> (lex_lt(a, b) || lex_lt(b, a)),
        !(lex_lt(a, b) && lex_lt(b, a)),
    decreases a.len(),
{
    if a.len() > 0 && b.len() > 0 && a[0] == b[0] {
        lemma_lex_total(a.drop_first(), b.drop_first());
        if a.drop_first() == b.drop_first() {
            assert(a =~= seq![a[0]] + a.drop_first());
            assert(b =~= seq![b[0]] + b.drop_first());
        }
    } else if a.len() == 0 && b.len() == 0 {
        assert(a =~= b);
    }
}

/// The order is transitive.
pub proof fn lemma_lex_transitive(a: Seq<char>, b: Seq<char>, c: Seq<char>)
    requires
        lex_lt(a, b),
        lex_lt(b, c),
    ensures
        lex_lt(a, c),
    decreases a.len(),
{
    if a.len() > 0 && a[0] == b[0] && b[0] == c[0] {
        lemma_lex_transitive(a.drop_first(), b.drop_first(), c.drop_first());
    }
}

/// Whether `a` comes strictly before `b`.
pub fn str_lt(a: &str, b: &str) -> (before: bool)
    ensures
        before == lex_lt(a@, b@),
{
    let mut rest_a = a.chars();
    let mut rest_b = b.chars();
    let ghost mut k: int = 0;
    loop
        invariant
            0 <= k <= a@.len(),
            k <= b@.len(),
            rest_a.remaining() == a@.skip(k),
            rest_b.remaining() == b@.skip(k),
            lex_lt(a@, b@) == lex_lt(a@.skip(k), b@.skip(k)),
        decreases a@.len() - k,
    {
        let next_a = rest_a.next();
        let next_b = rest_b.next();
        match next_b {
            None => {
                return false;
            },
            Some(y) => {
                match next_a {
                    None => {
                        return true;
                    },
                    Some(x) => {
                        if x != y {
                            return x < y;
                        }
                        proof {
                            assert(a@.skip(k).drop_first() == a@.skip(k + 1));
                            assert(b@.skip(k).drop_first() == b@.skip(k + 1));
                            k = k + 1;
                        }
                    },
                }
            },
        }
    }
}

/// Whether the two strings hold the same characters.
pub fn str_eq(a: &str, b: &str) -> (same: bool)
    ensures
        same == (a@ == b@),
{
    let mut rest_a = a.chars();
    let mut rest_b = b.chars();
    let ghost mut k: int = 0;
    loop
        invariant
            0 <= k <= a@.len(),
            k <= b@.len(),
            rest_a.remaining() == a@.skip(k),
            rest_b.remaining() == b@.skip(k),
            a@.take(k) == b@.take(k),
        decreases a@.len() - k,
    {
        let next_a = rest_a.next();
        let next_b = rest_b.next();
        match (next_a, next_b) {
            (None, None) => {
                proof {
                    assert(a@ =~= a@.take(k));
                    assert(b@ =~= b@.take(k));
                }
                return true;
            },
            (Some(x), Some(y)) => {
                if x != y {
                    assert(a@[k] != b@[k]);
                    return false;
                }
                proof {
                    assert(a@.take(k + 1) =~= a@.take(k).push(a@[k]));
                    assert(b@.take(k + 1) =~= b@.take(k).push(b@[k]));
                    assert(a@.skip(k).drop_first() == a@.skip(k + 1));
                    assert(b@.skip(k).drop_first() == b@.skip(k + 1));
                    k = k + 1;
                }
            },
            _ => {
                return false;
            },
        }
    }
}

/// The directory name of an identifier: every `/` replaced by `_`.
pub open spec fn flattened(plugin: Seq<char>) -> Seq<char> {
    plugin.map_values(|c: char| if c == '/' { '_' } else { c })
}

/// Turns an identifier such as `owner/repo` into the name of the directory
/// that holds its clone, `owner_repo`.
pub fn format_plugin_dir_name(plugin: &str) -> (name: String)
    ensures
        name@ == flattened(plugin@),
{
    let mut name = String::new();
    for c in it: plugin.chars()
        invariant
            it.seq() == plugin@,
            name@ == flattened(plugin@.take(it.index() as int)),
    {
        proof {
            let k = it.index() as int;
            assert(plugin@.take(k + 1) =~= plugin@.take(k).push(plugin@[k]));
            assert(flattened(plugin@.take(k + 1)) =~= flattened(plugin@.take(k)).push(
                if plugin@[k] == '/' { '_' } else { plugin@[k] }));
        }
        if c == '/' {
            name.push('_');
        } else {
            name.push(c);
        }
    }
    proof {
        assert(plugin@.take(plugin@.len() as int) =~= plugin@);
    }
    name
}

/// The characters of a string, one by one.
pub fn chars_of(text: &str) -> (chars: Vec<char>)
    ensures
        chars@ == text@,
{
    let mut chars: Vec<char> = Vec::new();
    for c in it: text.chars()
        invariant
            it.seq() == text@,
            chars@ == text@.take(it.index() as int),
    {
        proof {
            let k = it.index() as int;
            assert(text@.take(k + 1) =~= text@.take(k).push(text@[k]));
        }
        chars.push(c);
    }
    proof {
        assert(text@.take(text@.len() as int) =~= text@);
    }
    chars
}

/// Whether `text` ends with `suffix`.
pub open spec fn has_suffix(text: Seq<char>, suffix: Seq<char>) -> bool {
    suffix.len() <= text.len() && text.skip(text.len() - suffix.len()) == suffix
}

/// Whether `text` ends with `suffix`.
pub fn ends_with(text: &str, suffix: &str) -> (ends: bool)
    ensures
        ends == has_suffix(text@, suffix@),
{
    let t = chars_of(text);
    let s = chars_of(suffix);
    if s.len() > t.len() {
        return false;
    }
    let shift = t.len() - s.len();
    let mut i: usize = 0;
    while i < s.len()
        invariant
            i <= s.len(),
            shift + s.len() == t.len(),
            t@ == text@,
            s@ == suffix@,
            forall|j: int| 0 <= j < i ==> t@[shift + j] == s@[j],
        decreases s.len() - i,
    {
        if t[shift + i] != s[i] {
            assert(text@.skip(shift as int)[i as int] != suffix@[i as int]);
            return false;
        }
        i = i + 1;
    }
    assert(text@.skip(shift as int) =~= suffix@);
    true
}

/// White space as Unicode defines it: the characters with the property
/// `White_Space`.
pub open spec fn is_space(c: char) -> bool {
    let code = c as u32;
    (0x09 <= code <= 0x0d) || code == 0x20 || code == 0x85 || code == 0xa0 || code == 0x1680 || (
    0x2000 <= code <= 0x200a) || code == 0x2028 || code == 0x2029 || code == 0x202f || code
        == 0x205f || code == 0x3000
}

/// Whether a character is white space.
pub fn is_whitespace(c: char) -> (space: bool)
    ensures
        space == is_space(c),
{
    let code = c as u32;
    (0x09 <= code && code <= 0x0d) || code == 0x20 || code == 0x85 || code == 0xa0 || code
        == 0x1680 || (0x2000 <= code && code <= 0x200a) || code == 0x2028 || code == 0x2029
        || code == 0x202f || code == 0x205f || code == 0x3000
}

/// The words of a text: its longest runs of characters that are not white
/// space, in their order.
pub open spec fn words(text: Seq<char>) -> Seq<Seq<char>>
    decreases text.len(),
{
    if text.len() == 0 {
        Seq::empty()
    } else {
        let before = words(text.drop_last());
        if is_space(text.last()) {
            before
        } else if text.len() == 1 || is_space(text[text.len() - 2]) {
            before.push(seq![text.last()])
        } else {
            before.drop_last().push(before.last().push(text.last()))
        }
    }
}

/// No word is empty, and no word holds white space.
pub proof fn lemma_words_are_clean(text: Seq<char>)
    ensures
        forall|i: int| 0 <= i < words(text).len() ==> (#[trigger] words(text)[i]).len() > 0,
        forall|i: int, j: int|
            0 <= i < words(text).len() && 0 <= j < words(text)[i].len() ==> !is_space(
                #[trigger] words(text)[i][j],
            ),
        text.len() > 0 && !is_space(text.last()) ==> words(text).len() > 0,
    decreases text.len(),
{
    if text.len() > 0 {
        let before = words(text.drop_last());
        lemma_words_are_clean(text.drop_last());
        if !is_space(text.last()) && !(text.len() == 1 || is_space(text[text.len() - 2])) {
            assert(text.drop_last().last() == text[text.len() - 2]);
            let w = words(text);
            assert forall|i: int| 0 <= i < w.len() implies (#[trigger] w[i]).len() > 0 by {
                if i < w.len() - 1 {
                    assert(w[i] == before[i]);
                }
            }
            assert forall|i: int, j: int| 0 <= i < w.len() && 0 <= j < w[i].len() implies !is_space(
                #[trigger] w[i][j],
            ) by {
                if i < w.len() - 1 {
                    assert(w[i] == before[i]);
                } else if j < w[i].len() - 1 {
                    assert(w[i][j] == before.last()[j]);
                    assert(before.last() == before[before.len() - 1]);
                }
            }
        }
    }
}

/// Splits a text into its words.
pub fn split_words(text: &str) -> (list: Vec<String>)
    ensures
        texts(list@) == words(text@),
{
    let mut list: Vec<String> = Vec::new();
    let mut word = String::new();
    for c in it: text.chars()
        invariant
            it.seq() == text@,
            word@.len() == 0 ==> texts(list@) == words(text@.take(it.index() as int)) && (
            it.index() == 0 || is_space(text@[it.index() - 1])),
            word@.len() > 0 ==> texts(list@).push(word@) == words(text@.take(it.index() as int))
                && it.index() > 0 && !is_space(text@[it.index() - 1]),
    {
        let ghost k = it.index() as int;
        let ghost before = text@.take(k);
        let ghost now = text@.take(k + 1);
        proof {
            assert(now.drop_last() =~= before);
            assert(now.last() == text@[k]);
            if k > 0 {
                assert(now[now.len() - 2] == text@[k - 1]);
            }
        }
        if is_whitespace(c) {
            if !word.as_str().is_empty() {
                let ghost shorter = texts(list@);
                list.push(word);
                word = String::new();
                assert(texts(list@) =~= shorter.push(list@.last()@));
            }
        } else {
            let ghost old_word = word@;
            word.push(c);
            proof {
                if old_word.len() > 0 {
                    let full = texts(list@).push(old_word);
                    assert(full.drop_last() =~= texts(list@));
                    assert(full.last() == old_word);
                } else {
                    assert(word@ =~= seq![c]);
                }
            }
        }
    }
    proof {
        assert(text@.take(text@.len() as int) =~= text@);
    }
    if !word.as_str().is_empty() {
        let ghost shorter = texts(list@);
        list.push(word);
        assert(texts(list@) =~= shorter.push(list@.last()@));
    }
    list
}

} // verus!
