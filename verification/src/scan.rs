//! Bounds on how deep a text can nest, found by one pass over its characters.
//!
//! A parser calls itself at most once for each token of its input, and a
//! printer at most once for each group within a group. Neither number is
//! known before the text is lexed, so both are bounded from above here, by
//! what one pass over the characters gives.

use vstd::prelude::*;
use vstd::std_specs::iter::IteratorSpec;

verus! {

/// Whether `c` opens a group.
pub open spec fn is_opener(c: char) -> bool {
    c == '(' || c == '[' || c == '{'
}

/// Whether `c` closes a group.
pub open spec fn is_closer(c: char) -> bool {
    c == ')' || c == ']' || c == '}'
}

/// Whether `c` may start or change a literal or a comment in a way that
/// the pass does not follow: a single quote, a slash, a backslash, a hash.
pub open spec fn is_unclear(c: char) -> bool {
    c == '\'' || c == '/' || c == '\\' || c == '#'
}

/// What a pass over a text knows of its groups: how many may be open at the
/// end, the most that may have been open at once, whether the text so far
/// is clear, and whether a string is open.
pub struct Nesting {
    pub open: nat,
    pub peak: nat,
    pub clear: bool,
    pub quoted: bool,
}

/// The pass over `text`.
///
/// As long as the text is clear, a double quote starts a string or ends it,
/// a bracket outside a string opens or closes a group, and a bracket within
/// a string does nothing. Once an unclear character has come, a bracket may
/// stand in a literal or a comment: every opening bracket is then taken to
/// open a group, and no closing bracket to close one.
pub open spec fn nesting(text: Seq<char>) -> Nesting
    decreases text.len(),
{
    if text.len() == 0 {
        Nesting { open: 0, peak: 0, clear: true, quoted: false }
    } else {
        let before = nesting(text.drop_last());
        let c = text.last();
        let clear = before.clear && !is_unclear(c);
        let quoted = if c == '"' {
            !before.quoted
        } else {
            before.quoted
        };
        if is_opener(c) && !(clear && before.quoted) {
            Nesting {
                open: before.open + 1,
                peak: if before.peak > before.open {
                    before.peak
                } else {
                    before.open + 1
                },
                clear,
                quoted,
            }
        } else if is_closer(c) && clear && !before.quoted && before.open > 0 {
            Nesting { open: (before.open - 1) as nat, peak: before.peak, clear, quoted }
        } else {
            Nesting { open: before.open, peak: before.peak, clear, quoted }
        }
    }
}

/// A number that the depth to which `text` nests its groups does not exceed.
pub open spec fn nesting_bound(text: Seq<char>) -> nat {
    nesting(text).peak
}

/// Whether `c` is white space that separates tokens and is none itself.
pub open spec fn is_blank(c: char) -> bool {
    c == ' ' || 0x09 <= c as u32 <= 0x0d
}

/// Whether `c` can stand inside an identifier or a number: a letter, a
/// digit, an underscore, or a character beyond ASCII that is no space and no
/// punctuation. A run of such characters is one token at most.
pub open spec fn is_word(c: char) -> bool {
    let n = c as u32;
    ||| 0x30 <= n <= 0x39
    ||| 0x41 <= n <= 0x5a
    ||| n == 0x5f
    ||| 0x61 <= n <= 0x7a
    ||| (0xa1 <= n && n != 0x1680 && !(0x2000 <= n <= 0x206f) && n != 0x3000)
}

/// What the character at `i` adds to the count of tokens: nothing where it
/// is blank or goes on with a word, three where it is a slash, which as the
/// start of a documentation comment stands for an attribute, and one
/// otherwise.
pub open spec fn cost(text: Seq<char>, i: int) -> nat {
    if is_blank(text[i]) {
        0
    } else if is_word(text[i]) {
        if i > 0 && is_word(text[i - 1]) {
            0
        } else {
            1
        }
    } else if text[i] == '/' {
        3
    } else {
        1
    }
}

/// A number that the tokens of `text` do not exceed, groups and what they
/// hold counted alike: each word counts once, and so does each other
/// character that is not blank.
pub open spec fn token_bound(text: Seq<char>) -> nat
    decreases text.len(),
{
    if text.len() == 0 {
        0
    } else {
        token_bound(text.drop_last()) + cost(text, text.len() - 1)
    }
}

/// A text nests at least as deep as any of its beginnings.
pub proof fn lemma_nesting_grows(text: Seq<char>, n: int)
    requires
        0 <= n <= text.len(),
    ensures
        nesting_bound(text.take(n)) <= nesting_bound(text),
    decreases text.len(),
{
    if n < text.len() {
        assert(text.drop_last().take(n) =~= text.take(n));
        lemma_nesting_grows(text.drop_last(), n);
    } else {
        assert(text.take(n) =~= text);
    }
}

/// The bound of a text is at least that of any of its beginnings.
pub proof fn lemma_token_bound_grows(text: Seq<char>, n: int)
    requires
        0 <= n <= text.len(),
    ensures
        token_bound(text.take(n)) <= token_bound(text),
    decreases text.len(),
{
    if n < text.len() {
        assert(text.drop_last().take(n) =~= text.take(n));
        lemma_token_bound_grows(text.drop_last(), n);
    } else {
        assert(text.take(n) =~= text);
    }
}

/// Whether `text` nests its groups at most `limit` deep, as far as the pass
/// over it can tell.
pub fn shallow(text: &str, limit: usize) -> (r: bool)
    ensures
        r == (nesting_bound(text@) <= limit),
{
    let mut open: usize = 0;
    let mut peak: usize = 0;
    let mut clear = true;
    let mut quoted = false;
    let mut chars = text.chars();
    let ghost mut seen: int = 0;
    loop
        invariant
            0 <= seen <= text@.len(),
            chars.remaining() == text@.skip(seen),
            nesting(text@.take(seen)) == (Nesting {
                open: open as nat,
                peak: peak as nat,
                clear,
                quoted,
            }),
            open <= peak <= limit,
        decreases text@.len() - seen,
    {
        match chars.next() {
            None => {
                assert(text@.take(seen) =~= text@);
                return true;
            },
            Some(c) => {
                proof {
                    assert(text@.take(seen + 1).drop_last() =~= text@.take(seen));
                    seen = seen + 1;
                }
                if c == '\'' || c == '/' || c == '\\' || c == '#' {
                    clear = false;
                }
                if (c == '(' || c == '[' || c == '{') && !(clear && quoted) {
                    if open == limit {
                        proof {
                            lemma_nesting_grows(text@, seen);
                        }
                        return false;
                    }
                    open = open + 1;
                    if peak < open {
                        peak = open;
                    }
                } else if (c == ')' || c == ']' || c == '}') && clear && !quoted && open > 0 {
                    open = open - 1;
                }
                if c == '"' {
                    quoted = !quoted;
                }
            },
        }
    }
}

fn word_character(c: char) -> (r: bool)
    ensures
        r == is_word(c),
{
    let n: u32 = c as u32;
    (0x30 <= n && n <= 0x39) || (0x41 <= n && n <= 0x5a) || n == 0x5f || (0x61 <= n && n <= 0x7a)
        || (0xa1 <= n && n != 0x1680 && !(0x2000 <= n && n <= 0x206f) && n != 0x3000)
}

/// Whether the bound on the tokens of `text` is at most `limit`.
pub fn few_tokens(text: &str, limit: usize) -> (r: bool)
    ensures
        r == (token_bound(text@) <= limit),
{
    let mut count: usize = 0;
    let mut in_word = false;
    let mut chars = text.chars();
    let ghost mut seen: int = 0;
    loop
        invariant
            0 <= seen <= text@.len(),
            chars.remaining() == text@.skip(seen),
            count == token_bound(text@.take(seen)),
            count <= limit,
            in_word == (seen > 0 && is_word(text@[seen - 1])),
        decreases text@.len() - seen,
    {
        match chars.next() {
            None => {
                assert(text@.take(seen) =~= text@);
                return true;
            },
            Some(c) => {
                proof {
                    assert(text@.take(seen + 1).drop_last() =~= text@.take(seen));
                    seen = seen + 1;
                }
                let word = word_character(c);
                let n: u32 = c as u32;
                let add: usize = if c == ' ' || (0x09 <= n && n <= 0x0d) {
                    0
                } else if word {
                    if in_word {
                        0
                    } else {
                        1
                    }
                } else if c == '/' {
                    3
                } else {
                    1
                };
                assert(add == cost(text@.take(seen), seen - 1));
                if add > limit - count {
                    proof {
                        lemma_token_bound_grows(text@, seen);
                    }
                    return false;
                }
                count = count + add;
                in_word = word;
            },
        }
    }
}

/// Every character of `text` can stand inside an identifier.
pub open spec fn all_word(text: Seq<char>) -> bool {
    forall|i: int| 0 <= i < text.len() ==> is_word(#[trigger] text[i])
}

/// No character of `text` is a bracket that opens a group.
pub open spec fn no_opener(text: Seq<char>) -> bool {
    forall|i: int| 0 <= i < text.len() ==> !is_opener(#[trigger] text[i])
}

/// A text without a bracket that opens a group does not nest at all, however
/// long it is.
pub proof fn law_flat_text(text: Seq<char>)
    requires
        no_opener(text),
    ensures
        nesting(text).open == 0,
        nesting_bound(text) == 0,
    decreases text.len(),
{
    if text.len() > 0 {
        assert(no_opener(text.drop_last())) by {
            assert forall|i: int| 0 <= i < text.drop_last().len() implies !is_opener(
                #[trigger] text.drop_last()[i],
            ) by {
                assert(text.drop_last()[i] == text[i]);
            }
        }
        law_flat_text(text.drop_last());
    }
}

/// A word counts as one token and nests nothing, however long it is.
pub proof fn law_word_is_one_token(text: Seq<char>)
    requires
        all_word(text),
    ensures
        token_bound(text) == if text.len() == 0 { 0nat } else { 1nat },
        no_opener(text),
    decreases text.len(),
{
    if text.len() > 0 {
        assert(all_word(text.drop_last())) by {
            assert forall|i: int| 0 <= i < text.drop_last().len() implies is_word(
                #[trigger] text.drop_last()[i],
            ) by {
                assert(text.drop_last()[i] == text[i]);
            }
        }
        law_word_is_one_token(text.drop_last());
        assert(is_word(text[text.len() - 1]));
        if text.len() > 1 {
            assert(is_word(text[text.len() - 2]));
        }
    }
    assert forall|i: int| 0 <= i < text.len() implies !is_opener(#[trigger] text[i]) by {
        assert(is_word(text[i]));
    }
}

/// Two texts written one after the other have no more tokens than both
/// together.
pub proof fn law_token_bound_of_parts(left: Seq<char>, right: Seq<char>)
    ensures
        token_bound(left + right) <= token_bound(left) + token_bound(right),
    decreases right.len(),
{
    if right.len() == 0 {
        assert(left + right =~= left);
    } else {
        assert((left + right).drop_last() =~= left + right.drop_last());
        law_token_bound_of_parts(left, right.drop_last());
        let last = (left + right).len() - 1;
        assert((left + right)[last] == right[right.len() - 1]);
        if right.len() > 1 {
            assert((left + right)[last - 1] == right[right.len() - 2]);
        }
    }
}

} // verus!
