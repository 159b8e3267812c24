//! Character classes, identifier word splitting and text ordering.
use core::cmp::Ordering;
use vstd::prelude::*;

verus! {

/// Whether `c` has the Unicode `Uppercase` property.
pub uninterp spec fn is_uppercase_char(c: char) -> bool;

/// Whether `c` has the Unicode `Alphabetic` or `Numeric` property.
pub uninterp spec fn is_alphanumeric_char(c: char) -> bool;

/// The characters of the Unicode lowercase mapping of `c`.
pub uninterp spec fn lowercase_of_char(c: char) -> Seq<char>;

/// Relies on `char::is_uppercase`: whether the character is uppercase.
#[verifier::external_body]
pub(crate) fn char_is_uppercase(c: char) -> (r: bool)
    ensures
        r == is_uppercase_char(c),
{
    c.is_uppercase()
}

/// Relies on `char::is_alphanumeric`: whether the character is alphanumeric.
#[verifier::external_body]
pub(crate) fn char_is_alphanumeric(c: char) -> (r: bool)
    ensures
        r == is_alphanumeric_char(c),
{
    c.is_alphanumeric()
}

/// Relies on `char::to_lowercase`: the characters of the lowercase mapping.
#[verifier::external_body]
pub(crate) fn char_to_lowercase(c: char) -> (r: Vec<char>)
    ensures
        r@ == lowercase_of_char(c),
{
    c.to_lowercase().collect()
}

/// A new word starts between `prev` and `next` when an uppercase character
/// follows a non-uppercase one, or an alphanumeric one follows a
/// non-alphanumeric one.
pub open spec fn starts_word(prev: char, next: char) -> bool {
    (!is_uppercase_char(prev) && is_uppercase_char(next)) || (!is_alphanumeric_char(prev)
        && is_alphanumeric_char(next))
}

/// The words of `s` from the word that begins at `start`, the scan having
/// reached position `i`.
pub open spec fn words_from(s: Seq<char>, start: int, i: int) -> Seq<Seq<char>>
    decreases s.len() - i,
{
    if i >= s.len() {
        seq![s.subrange(start, s.len() as int)]
    } else if starts_word(s[i - 1], s[i]) {
        seq![s.subrange(start, i)] + words_from(s, i, i + 1)
    } else {
        words_from(s, start, i + 1)
    }
}

/// The words of an identifier, in order; their concatenation is `s`.
pub open spec fn split_words_spec(s: Seq<char>) -> Seq<Seq<char>> {
    if s.len() == 0 {
        seq![]
    } else {
        words_from(s, 0, 1)
    }
}

/// Splits an identifier into words at case transitions and after runs of
/// non-alphanumeric characters, which stay at the end of the word before.
pub fn split_words<'a>(text: &'a str) -> (words: Vec<&'a str>)
    ensures
        words@.map_values(|w: &str| w@) == split_words_spec(text@),
{
    let n = text.unicode_len();
    let mut words: Vec<&'a str> = Vec::new();
    if n == 0 {
        return words;
    }
    let ghost s = text@;
    let mut start: usize = 0;
    let mut i: usize = 1;
    let mut prev = text.get_char(0);
    while i < n
        invariant
            s == text@,
            n == s.len(),
            0 <= start < i <= n,
            prev == s[i - 1],
            words@.map_values(|w: &str| w@) + words_from(s, start as int, i as int)
                == split_words_spec(s),
        decreases n - i,
    {
        let c = text.get_char(i);
        let boundary = (!char_is_uppercase(prev) && char_is_uppercase(c)) || (
        !char_is_alphanumeric(prev) && char_is_alphanumeric(c));
        if boundary {
            let w = text.substring_char(start, i);
            proof {
                assert(words@.push(w).map_values(|w: &str| w@) =~= words@.map_values(
                    |w: &str| w@,
                ).push(w@));
            }
            words.push(w);
            start = i;
        }
        prev = c;
        i = i + 1;
    }
    let w = text.substring_char(start, n);
    proof {
        assert(words@.push(w).map_values(|w: &str| w@) =~= words@.map_values(|w: &str| w@).push(
            w@,
        ));
    }
    words.push(w);
    words
}

/// The lowercase mapping of each character of `s`, concatenated.
pub open spec fn lowercase_of(s: Seq<char>) -> Seq<char>
    decreases s.len(),
{
    if s.len() == 0 {
        seq![]
    } else {
        lowercase_of(s.drop_last()) + lowercase_of_char(s.last())
    }
}

/// `a` and `b` agree on every position that both have.
pub open spec fn agree_on_common_prefix(a: Seq<char>, b: Seq<char>) -> bool {
    forall|k: int| 0 <= k < a.len() && k < b.len() ==> a[k] == b[k]
}

/// A word starts like a query whose first character is `q`: with `q` itself
/// when matching is case-sensitive, else with the lowercase mapping of `q`
/// as the word's lowercase mapping begins.
pub open spec fn word_starts_with(word: Seq<char>, q: char, case_sensitive: bool) -> bool {
    if case_sensitive {
        word.len() == 0 || word[0] == q
    } else {
        agree_on_common_prefix(lowercase_of(word), lowercase_of_char(q))
    }
}

/// Some word of `s` starts like a query whose first character is `q`.
pub open spec fn has_word_starting_with(s: Seq<char>, q: char, case_sensitive: bool) -> bool {
    exists|k: int|
        0 <= k < split_words_spec(s).len() && word_starts_with(
            #[trigger] split_words_spec(s)[k],
            q,
            case_sensitive,
        )
}

/// A query is matched case-sensitively when it holds an uppercase character.
pub open spec fn is_case_sensitive_query(query: Seq<char>) -> bool {
    exists|i: int| 0 <= i < query.len() && is_uppercase_char(#[trigger] query[i])
}

/// Whether the query holds an uppercase character, which makes fuzzy
/// matching case-sensitive.
pub fn query_is_case_sensitive(query: &str) -> (r: bool)
    ensures
        r == is_case_sensitive_query(query@),
{
    let n = query.unicode_len();
    let mut i: usize = 0;
    while i < n
        invariant
            n == query@.len(),
            i <= n,
            forall|j: int| 0 <= j < i ==> !is_uppercase_char(#[trigger] query@[j]),
        decreases n - i,
    {
        if char_is_uppercase(query.get_char(i)) {
            return true;
        }
        i = i + 1;
    }
    false
}

/// The lowercase mapping of a whole text, one character at a time.
pub fn lowercase_chars(text: &str) -> (r: Vec<char>)
    ensures
        r@ == lowercase_of(text@),
{
    let n = text.unicode_len();
    let mut r: Vec<char> = Vec::new();
    let mut i: usize = 0;
    while i < n
        invariant
            n == text@.len(),
            i <= n,
            r@ == lowercase_of(text@.take(i as int)),
        decreases n - i,
    {
        let lower = char_to_lowercase(text.get_char(i));
        let ghost before = r@;
        let mut k: usize = 0;
        while k < lower.len()
            invariant
                k <= lower@.len(),
                r@ == before + lower@.take(k as int),
            decreases lower@.len() - k,
        {
            r.push(lower[k]);
            proof {
                assert(before + lower@.take(k + 1) =~= (before + lower@.take(k as int)).push(
                    lower@[k as int],
                ));
            }
            k = k + 1;
        }
        proof {
            assert(text@.take(i + 1).drop_last() =~= text@.take(i as int));
            assert(lower@.take(k as int) =~= lower@);
        }
        i = i + 1;
    }
    proof {
        assert(text@.take(n as int) =~= text@);
    }
    r
}

/// Whether `word` starts like a query whose first character is `q`.
pub fn word_starts_like(word: &str, q: char, case_sensitive: bool) -> (r: bool)
    ensures
        r == word_starts_with(word@, q, case_sensitive),
{
    if case_sensitive {
        word.unicode_len() == 0 || word.get_char(0) == q
    } else {
        let w = lowercase_chars(word);
        let l = char_to_lowercase(q);
        let mut k: usize = 0;
        while k < w.len() && k < l.len()
            invariant
                !case_sensitive,
                w@ == lowercase_of(word@),
                l@ == lowercase_of_char(q),
                forall|j: int| 0 <= j < k ==> w@[j] == l@[j],
                k <= w@.len(),
                k <= l@.len(),
            decreases w@.len() - k,
        {
            if w[k] != l[k] {
                assert(!agree_on_common_prefix(w@, l@));
                return false;
            }
            k = k + 1;
        }
        true
    }
}

/// Whether some word of `text` starts like a query whose first character
/// is `q`.
pub fn has_word_starting_like(text: &str, q: char, case_sensitive: bool) -> (r: bool)
    ensures
        r == has_word_starting_with(text@, q, case_sensitive),
{
    let words = split_words(text);
    let ghost ws = split_words_spec(text@);
    assert(words@.map_values(|w: &str| w@).len() == ws.len());
    let mut k: usize = 0;
    while k < words.len()
        invariant
            words@.map_values(|w: &str| w@) == ws,
            ws == split_words_spec(text@),
            k <= words@.len(),
            forall|j: int| 0 <= j < k ==> !word_starts_with(#[trigger] ws[j], q, case_sensitive),
        decreases words@.len() - k,
    {
        assert(ws[k as int] == words@[k as int]@);
        if word_starts_like(words[k], q, case_sensitive) {
            return true;
        }
        k = k + 1;
    }
    false
}

/// Lexicographic order of two texts by character.
pub open spec fn text_order(a: Seq<char>, b: Seq<char>) -> Ordering
    decreases a.len(),
{
    if a.len() == 0 {
        if b.len() == 0 {
            Ordering::Equal
        } else {
            Ordering::Less
        }
    } else if b.len() == 0 {
        Ordering::Greater
    } else if a[0] < b[0] {
        Ordering::Less
    } else if a[0] > b[0] {
        Ordering::Greater
    } else {
        text_order(a.drop_first(), b.drop_first())
    }
}

/// The opposite of an ordering.
pub open spec fn reversed(o: Ordering) -> Ordering {
    match o {
        Ordering::Less => Ordering::Greater,
        Ordering::Equal => Ordering::Equal,
        Ordering::Greater => Ordering::Less,
    }
}

/// Texts are equal exactly when neither comes first, and swapping them
/// reverses their order.
pub proof fn lemma_text_order_antisymmetric(a: Seq<char>, b: Seq<char>)
    ensures
        (text_order(a, b) == Ordering::Equal) == (a == b),
        text_order(b, a) == reversed(text_order(a, b)),
    decreases a.len(),
{
    if a.len() > 0 && b.len() > 0 && a[0] == b[0] {
        lemma_text_order_antisymmetric(a.drop_first(), b.drop_first());
        if a.drop_first() == b.drop_first() {
            assert(a =~= seq![a[0]] + a.drop_first());
            assert(b =~= seq![b[0]] + b.drop_first());
        }
    } else if a.len() > 0 && b.len() > 0 {
        assert(a[0] != b[0]);
    } else if a.len() == 0 && b.len() == 0 {
        assert(a =~= b);
    }
}

/// The order of texts is transitive, and strict where either step is.
pub proof fn lemma_text_order_transitive(a: Seq<char>, b: Seq<char>, c: Seq<char>)
    requires
        text_order(a, b) != Ordering::Greater,
        text_order(b, c) != Ordering::Greater,
    ensures
        text_order(a, c) != Ordering::Greater,
        text_order(a, b) == Ordering::Less || text_order(b, c) == Ordering::Less ==> text_order(a, c)
            == Ordering::Less,
    decreases a.len(),
{
    if a.len() > 0 && b.len() > 0 && c.len() > 0 && a[0] == b[0] && b[0] == c[0] {
        lemma_text_order_transitive(a.drop_first(), b.drop_first(), c.drop_first());
    }
}

/// Compares two texts character by character.
pub fn compare_text(a: &str, b: &str) -> (r: Ordering)
    ensures
        r == text_order(a@, b@),
{
    let n = a.unicode_len();
    let m = b.unicode_len();
    let mut i: usize = 0;
    assert(a@.skip(0) =~= a@ && b@.skip(0) =~= b@);
    while i < n && i < m && a.get_char(i) == b.get_char(i)
        invariant
            n == a@.len(),
            m == b@.len(),
            i <= n,
            i <= m,
            text_order(a@, b@) == text_order(a@.skip(i as int), b@.skip(i as int)),
        decreases n - i,
    {
        proof {
            assert(a@.skip(i as int).drop_first() =~= a@.skip(i + 1));
            assert(b@.skip(i as int).drop_first() =~= b@.skip(i + 1));
        }
        i = i + 1;
    }
    if i == n {
        if i == m {
            Ordering::Equal
        } else {
            Ordering::Less
        }
    } else if i == m {
        Ordering::Greater
    } else {
        if a.get_char(i) < b.get_char(i) {
            Ordering::Less
        } else {
            Ordering::Greater
        }
    }
}

} // verus!
