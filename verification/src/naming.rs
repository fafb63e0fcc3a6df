//! Case-convention engine: computes a field's externally visible name
//! from its declared identifier and a rename rule.
//!
//! An identifier is segmented into words on three signals: explicit
//! separators (`_`, `-`, whitespace), a lowercase-to-uppercase
//! transition, and an uppercase letter followed by a lowercase one (the
//! acronym boundary, as in `HTTPRequest` = `HTTP` + `Request`).  Each
//! word is then case-folded and the words are rejoined with the rule's
//! separator.  The engine works on the ASCII letters; all other
//! characters pass through unchanged.

use vstd::prelude::*;
use vstd::string::StrSliceExecFns;
use vstd::string::StringExecFns;

verus! {

/// True for the characters that separate words outright.
pub open spec fn is_word_sep(c: char) -> bool {
    c == '_' || c == '-' || c == ' ' || c == '\t' || c == '\n' || c == '\r'
}

/// True for an ASCII uppercase letter.
pub open spec fn is_upper(c: char) -> bool {
    'A' <= c && c <= 'Z'
}

/// True for an ASCII lowercase letter.
pub open spec fn is_lower(c: char) -> bool {
    'a' <= c && c <= 'z'
}

/// The ASCII lowercase counterpart of a character.
pub open spec fn lower_char(c: char) -> char {
    if is_upper(c) {
        ((c as u32) + 32) as char
    } else {
        c
    }
}

/// The ASCII uppercase counterpart of a character.
pub open spec fn upper_char(c: char) -> char {
    if is_lower(c) {
        ((c as u32) - 32) as char
    } else {
        c
    }
}

/// Pointwise ASCII lowercasing of a character sequence.
pub open spec fn lower_seq(s: Seq<char>) -> Seq<char> {
    s.map_values(|c: char| lower_char(c))
}

/// Pointwise ASCII uppercasing of a character sequence.
pub open spec fn upper_seq(s: Seq<char>) -> Seq<char> {
    s.map_values(|c: char| upper_char(c))
}

fn char_is_sep(c: char) -> (r: bool)
    ensures
        r == is_word_sep(c),
{
    c == '_' || c == '-' || c == ' ' || c == '\t' || c == '\n' || c == '\r'
}

fn char_is_upper(c: char) -> (r: bool)
    ensures
        r == is_upper(c),
{
    let u = c as u32;
    65 <= u && u <= 90
}

fn char_is_lower(c: char) -> (r: bool)
    ensures
        r == is_lower(c),
{
    let u = c as u32;
    97 <= u && u <= 122
}

fn char_to_lower(c: char) -> (r: char)
    ensures
        r == lower_char(c),
{
    let u = c as u32;
    if 65 <= u && u <= 90 {
        (((u + 32) as u8) as char)
    } else {
        c
    }
}

fn char_to_upper(c: char) -> (r: char)
    ensures
        r == upper_char(c),
{
    let u = c as u32;
    if 97 <= u && u <= 122 {
        (((u - 32) as u8) as char)
    } else {
        c
    }
}

/// Relies on `String::push`: appends the given character to the end of
/// the string, leaving the earlier contents in place.
#[verifier::external_body]
pub(crate) fn push_char(s: &mut String, c: char)
    ensures
        final(s)@ == old(s)@.push(c),
{
    s.push(c);
}

/// One left-to-right pass of the word splitter, from position `i` with
/// the word built so far, the classification of the previous character,
/// and the words already produced.  A separator ends the current word;
/// an uppercase letter begins a new word after a plain character, or
/// after an uppercase one when the following character is lowercase
/// (the acronym boundary).
pub open spec fn split_rec(
    s: Seq<char>,
    i: int,
    cur: Seq<char>,
    prev_plain: bool,
    prev_upper: bool,
    acc: Seq<Seq<char>>,
) -> Seq<Seq<char>>
    decreases s.len() - i,
{
    if i < 0 || i >= s.len() {
        if cur.len() > 0 {
            acc.push(cur)
        } else {
            acc
        }
    } else {
        let c = s[i];
        if is_word_sep(c) {
            split_rec(
                s,
                i + 1,
                Seq::empty(),
                false,
                false,
                if cur.len() > 0 {
                    acc.push(cur)
                } else {
                    acc
                },
            )
        } else if is_upper(c) {
            if cur.len() > 0 && (prev_plain || (prev_upper && i + 1 < s.len() && is_lower(
                s[i + 1],
            ))) {
                split_rec(s, i + 1, seq![c], false, true, acc.push(cur))
            } else {
                split_rec(s, i + 1, cur.push(c), false, true, acc)
            }
        } else {
            split_rec(s, i + 1, cur.push(c), true, false, acc)
        }
    }
}

/// The words of an identifier, in order.
pub open spec fn split_words(s: Seq<char>) -> Seq<Seq<char>> {
    split_rec(s, 0, Seq::empty(), false, false, Seq::empty())
}

/// Splits a string into words based on case and separators
pub fn split_into_words(input: &str) -> (r: Vec<String>)
    ensures
        r.deep_view() == split_words(input@),
{
    let ghost s = input@;
    let n = input.unicode_len();
    let mut words: Vec<String> = Vec::new();
    let mut cur = String::new();
    let mut prev_plain = false;
    let mut prev_upper = false;
    let mut i: usize = 0;
    proof {
        assert(words.deep_view() =~~= Seq::<Seq<char>>::empty());
    }
    while i < n
        invariant
            s == input@,
            n == s.len(),
            0 <= i <= n,
            split_words(s) == split_rec(s, i as int, cur@, prev_plain, prev_upper, words.deep_view()),
        decreases n - i,
    {
        let ghost prev_words = words.deep_view();
        let ghost prev_cur = cur@;
        let ghost pp = prev_plain;
        let ghost pu = prev_upper;
        let c = input.get_char(i);
        proof {
            assert(s[i as int] == c);
        }
        if char_is_sep(c) {
            if !cur.as_str().is_empty() {
                words.push(cur);
                cur = String::new();
                proof {
                    assert(words.deep_view() =~~= prev_words.push(prev_cur));
                }
            } else {
                proof {
                    assert(cur@ =~= Seq::<char>::empty());
                }
            }
            proof {
                assert(split_rec(s, i as int, prev_cur, pp, pu, prev_words) == split_rec(
                    s,
                    i + 1,
                    Seq::<char>::empty(),
                    false,
                    false,
                    if prev_cur.len() > 0 {
                        prev_words.push(prev_cur)
                    } else {
                        prev_words
                    },
                ));
            }
            prev_plain = false;
            prev_upper = false;
        } else if char_is_upper(c) {
            let next_is_lower = i + 1 < n && char_is_lower(input.get_char(i + 1));
            if !cur.as_str().is_empty() && (prev_plain || (prev_upper && next_is_lower)) {
                words.push(cur);
                cur = String::new();
                push_char(&mut cur, c);
                proof {
                    assert(words.deep_view() =~~= prev_words.push(prev_cur));
                    assert(cur@ =~= seq![c]);
                    assert(split_rec(s, i as int, prev_cur, pp, pu, prev_words) == split_rec(
                        s,
                        i + 1,
                        seq![c],
                        false,
                        true,
                        prev_words.push(prev_cur),
                    ));
                }
            } else {
                push_char(&mut cur, c);
                proof {
                    assert(split_rec(s, i as int, prev_cur, pp, pu, prev_words) == split_rec(
                        s,
                        i + 1,
                        prev_cur.push(c),
                        false,
                        true,
                        prev_words,
                    ));
                }
            }
            prev_plain = false;
            prev_upper = true;
        } else {
            push_char(&mut cur, c);
            proof {
                assert(split_rec(s, i as int, prev_cur, pp, pu, prev_words) == split_rec(
                    s,
                    i + 1,
                    prev_cur.push(c),
                    true,
                    false,
                    prev_words,
                ));
            }
            prev_plain = true;
            prev_upper = false;
        }
        i = i + 1;
        proof {
            assert(split_rec(s, (i - 1) as int, prev_cur, pp, pu, prev_words) == split_rec(
                s,
                i as int,
                cur@,
                prev_plain,
                prev_upper,
                words.deep_view(),
            ));
        }
    }
    if !cur.as_str().is_empty() {
        let ghost prev_words = words.deep_view();
        let ghost prev_cur = cur@;
        words.push(cur);
        proof {
            assert(words.deep_view() =~~= prev_words.push(prev_cur));
        }
    }
    words
}

/// Converts a string to lowercase
pub fn to_lowercase(input: &str) -> (r: String)
    ensures
        r@ == lower_seq(input@),
{
    let n = input.unicode_len();
    let mut out = String::new();
    let mut i: usize = 0;
    while i < n
        invariant
            n == input@.len(),
            0 <= i <= n,
            out@ == lower_seq(input@).subrange(0, i as int),
        decreases n - i,
    {
        let c = input.get_char(i);
        push_char(&mut out, char_to_lower(c));
        i = i + 1;
        proof {
            assert(out@ =~= lower_seq(input@).subrange(0, i as int));
        }
    }
    proof {
        assert(lower_seq(input@).subrange(0, n as int) =~= lower_seq(input@));
    }
    out
}

/// Converts a string to UPPERCASE
pub fn to_uppercase(input: &str) -> (r: String)
    ensures
        r@ == upper_seq(input@),
{
    let n = input.unicode_len();
    let mut out = String::new();
    let mut i: usize = 0;
    while i < n
        invariant
            n == input@.len(),
            0 <= i <= n,
            out@ == upper_seq(input@).subrange(0, i as int),
        decreases n - i,
    {
        let c = input.get_char(i);
        push_char(&mut out, char_to_upper(c));
        i = i + 1;
        proof {
            assert(out@ =~= upper_seq(input@).subrange(0, i as int));
        }
    }
    proof {
        assert(upper_seq(input@).subrange(0, n as int) =~= upper_seq(input@));
    }
    out
}

/// A word with its first character uppercased and the rest kept as it
/// stands, so an acronym's tail survives: `HTTP` stays `HTTP`.
pub open spec fn capitalize_word(w: Seq<char>) -> Seq<char> {
    if w.len() == 0 {
        w
    } else {
        seq![upper_char(w[0])] + w.drop_first()
    }
}

/// Every word lowercased.
pub open spec fn lower_words(ws: Seq<Seq<char>>) -> Seq<Seq<char>> {
    ws.map_values(|w: Seq<char>| lower_seq(w))
}

/// Every word uppercased.
pub open spec fn upper_words(ws: Seq<Seq<char>>) -> Seq<Seq<char>> {
    ws.map_values(|w: Seq<char>| upper_seq(w))
}

/// The words run together with nothing between them.
pub open spec fn concat_words(ws: Seq<Seq<char>>) -> Seq<char>
    decreases ws.len(),
{
    if ws.len() == 0 {
        Seq::empty()
    } else {
        concat_words(ws.drop_last()) + ws.last()
    }
}

/// The words joined by the given separator.
pub open spec fn join_words(ws: Seq<Seq<char>>, sep: char) -> Seq<char>
    decreases ws.len(),
{
    if ws.len() == 0 {
        Seq::empty()
    } else if ws.len() == 1 {
        ws[0]
    } else {
        join_words(ws.drop_last(), sep).push(sep) + ws.last()
    }
}

/// `foo_bar` as `FooBar`.
pub open spec fn pascal_of(s: Seq<char>) -> Seq<char> {
    concat_words(split_words(s).map_values(|w: Seq<char>| capitalize_word(w)))
}

/// A word with its first character lowercased and the rest untouched.
pub open spec fn lower_first(w: Seq<char>) -> Seq<char> {
    if w.len() == 0 {
        w
    } else {
        seq![lower_char(w[0])] + w.drop_first()
    }
}

/// `foo_bar` as `fooBar`.
pub open spec fn camel_of(s: Seq<char>) -> Seq<char> {
    lower_first(pascal_of(s))
}

/// `FooBar` as `foo_bar`.
pub open spec fn snake_of(s: Seq<char>) -> Seq<char> {
    join_words(lower_words(split_words(s)), '_')
}

/// `FooBar` as `FOO_BAR`.
pub open spec fn screaming_snake_of(s: Seq<char>) -> Seq<char> {
    join_words(upper_words(split_words(s)), '_')
}

/// `FooBar` as `foo-bar`.
pub open spec fn kebab_of(s: Seq<char>) -> Seq<char> {
    join_words(lower_words(split_words(s)), '-')
}

/// `FooBar` as `FOO-BAR`.
pub open spec fn screaming_kebab_of(s: Seq<char>) -> Seq<char> {
    join_words(upper_words(split_words(s)), '-')
}

/// Joins the words with the separator, folding each word to one case.
fn join_folded(words: &Vec<String>, to_upper: bool, sep: char) -> (r: String)
    ensures
        r@ == join_words(
            if to_upper {
                upper_words(words.deep_view())
            } else {
                lower_words(words.deep_view())
            },
            sep,
        ),
{
    let ghost folded = if to_upper {
        upper_words(words.deep_view())
    } else {
        lower_words(words.deep_view())
    };
    let mut out = String::new();
    let mut k: usize = 0;
    let n = words.len();
    proof {
        assert(folded.len() == n);
        assert(out@ =~= join_words(folded.take(0), sep));
    }
    while k < n
        invariant
            n == words.len(),
            0 <= k <= n,
            folded == if to_upper {
                upper_words(words.deep_view())
            } else {
                lower_words(words.deep_view())
            },
            folded.len() == n,
            out@ == join_words(folded.take(k as int), sep),
        decreases n - k,
    {
        let ghost prev = out@;
        if k > 0 {
            push_char(&mut out, sep);
        }
        let w = if to_upper {
            to_uppercase((&words[k]).as_str())
        } else {
            to_lowercase((&words[k]).as_str())
        };
        out.append(w.as_str());
        proof {
            assert(w@ == folded[k as int]);
            assert(folded.take(k + 1).drop_last() =~~= folded.take(k as int));
            assert(folded.take(k + 1).last() == folded[k as int]);
            if k == 0 {
                assert(out@ =~= join_words(folded.take(1), sep));
            } else {
                assert(out@ =~= join_words(folded.take(k as int), sep).push(sep) + folded[
                    k as int
                ]);
                assert(out@ == join_words(folded.take(k + 1), sep));
            }
        }
        k = k + 1;
    }
    proof {
        assert(folded.take(n as int) =~= folded);
    }
    out
}

/// Converts a string to PascalCase: `foo_bar` -> `FooBar`
pub fn to_pascal_case(input: &str) -> (r: String)
    ensures
        r@ == pascal_of(input@),
{
    let words = split_into_words(input);
    let ghost caps = split_words(input@).map_values(|w: Seq<char>| capitalize_word(w));
    let mut out = String::new();
    let mut k: usize = 0;
    let n = words.len();
    proof {
        assert(caps.len() == n);
        assert(out@ =~= concat_words(caps.take(0)));
    }
    while k < n
        invariant
            n == words.len(),
            0 <= k <= n,
            words.deep_view() == split_words(input@),
            caps == split_words(input@).map_values(|w: Seq<char>| capitalize_word(w)),
            caps.len() == n,
            out@ == concat_words(caps.take(k as int)),
        decreases n - k,
    {
        let ghost w = words.deep_view()[k as int];
        let ghost start = out@;
        let wlen = (&words[k]).as_str().unicode_len();
        let mut j: usize = 0;
        proof {
            assert(capitalize_word(w).len() == w.len());
        }
        while j < wlen
            invariant
                k < n == words.len(),
                wlen == words.deep_view()[k as int].len(),
                w == words.deep_view()[k as int],
                0 <= j <= wlen,
                capitalize_word(w).len() == w.len(),
                out@ == start + capitalize_word(w).subrange(0, j as int),
            decreases wlen - j,
        {
            let c = (&words[k]).as_str().get_char(j);
            if j == 0 {
                push_char(&mut out, char_to_upper(c));
            } else {
                push_char(&mut out, c);
            }
            j = j + 1;
            proof {
                if j - 1 == 0 {
                    assert(capitalize_word(w)[0] == upper_char(w[0]));
                } else {
                    assert(capitalize_word(w)[j - 1] == w.drop_first()[j - 2]);
                    assert(capitalize_word(w)[j - 1] == w[j - 1]);
                }
                assert(out@ =~= start + capitalize_word(w).subrange(0, j as int));
            }
        }
        k = k + 1;
        proof {
            assert(capitalize_word(w).subrange(0, w.len() as int) =~= capitalize_word(w));
            assert(caps.take(k as int).drop_last() =~~= caps.take(k - 1));
            assert(caps.take(k as int).last() == capitalize_word(w));
            assert(out@ == concat_words(caps.take(k as int)));
        }
    }
    proof {
        assert(caps.take(n as int) =~= caps);
    }
    out
}

/// Converts a string to camelCase: `foo_bar` -> `fooBar`
pub fn to_camel_case(input: &str) -> (r: String)
    ensures
        r@ == camel_of(input@),
{
    let pascal = to_pascal_case(input);
    let n = pascal.as_str().unicode_len();
    let mut out = String::new();
    let mut j: usize = 0;
    while j < n
        invariant
            n == pascal@.len(),
            pascal@ == pascal_of(input@),
            0 <= j <= n,
            out@ == camel_of(input@).subrange(0, j as int),
        decreases n - j,
    {
        let c = pascal.as_str().get_char(j);
        if j == 0 {
            push_char(&mut out, char_to_lower(c));
        } else {
            push_char(&mut out, c);
        }
        j = j + 1;
        proof {
            let p = pascal_of(input@);
            if j - 1 == 0 {
                assert(camel_of(input@)[0] == lower_char(p[0]));
            } else {
                assert(camel_of(input@)[j - 1] == p.drop_first()[j - 2]);
                assert(camel_of(input@)[j - 1] == p[j - 1]);
            }
            assert(out@ =~= camel_of(input@).subrange(0, j as int));
        }
    }
    proof {
        assert(camel_of(input@).subrange(0, n as int) =~= camel_of(input@));
    }
    out
}

/// Converts a string to snake_case: `FooBar` -> `foo_bar`
pub fn to_snake_case(input: &str) -> (r: String)
    ensures
        r@ == snake_of(input@),
{
    let words = split_into_words(input);
    join_folded(&words, false, '_')
}

/// Converts a string to SCREAMING_SNAKE_CASE: `FooBar` -> `FOO_BAR`
pub fn to_screaming_snake_case(input: &str) -> (r: String)
    ensures
        r@ == screaming_snake_of(input@),
{
    let words = split_into_words(input);
    join_folded(&words, true, '_')
}

/// Converts a string to kebab-case: `FooBar` -> `foo-bar`
pub fn to_kebab_case(input: &str) -> (r: String)
    ensures
        r@ == kebab_of(input@),
{
    let words = split_into_words(input);
    join_folded(&words, false, '-')
}

/// Converts a string to SCREAMING-KEBAB-CASE: `FooBar` -> `FOO-BAR`
pub fn to_screaming_kebab_case(input: &str) -> (r: String)
    ensures
        r@ == screaming_kebab_of(input@),
{
    let words = split_into_words(input);
    join_folded(&words, true, '-')
}

/// Character-by-character string comparison.
fn str_eq(a: &str, b: &str) -> (r: bool)
    ensures
        r == (a@ == b@),
{
    let na = a.unicode_len();
    let nb = b.unicode_len();
    if na != nb {
        return false;
    }
    let mut i: usize = 0;
    while i < na
        invariant
            na == a@.len(),
            na == b@.len(),
            0 <= i <= na,
            forall|j: int| 0 <= j < i ==> a@[j] == b@[j],
        decreases na - i,
    {
        if a.get_char(i) != b.get_char(i) {
            return false;
        }
        i = i + 1;
    }
    proof {
        assert(a@ =~= b@);
    }
    true
}

/// Represents different case conversion strategies for renaming
#[derive(Clone, Copy, Debug, PartialEq, Eq, Structural)]
pub enum RenameRule {
    /// Rename to lowercase: `FooBar` -> `foobar`
    Lowercase,
    /// Rename to UPPERCASE: `FooBar` -> `FOOBAR`
    Uppercase,
    /// Rename to PascalCase: `foo_bar` -> `FooBar`
    PascalCase,
    /// Rename to camelCase: `foo_bar` -> `fooBar`
    CamelCase,
    /// Rename to snake_case: `FooBar` -> `foo_bar`
    SnakeCase,
    /// Rename to SCREAMING_SNAKE_CASE: `FooBar` -> `FOO_BAR`
    ScreamingSnakeCase,
    /// Rename to kebab-case: `FooBar` -> `foo-bar`
    KebabCase,
    /// Rename to SCREAMING-KEBAB-CASE: `FooBar` -> `FOO-BAR`
    ScreamingKebabCase,
    /// No renaming applied.
    Passthrough,
}

/// The rule designated by a configuration string, if any.
pub open spec fn rule_of_name(s: Seq<char>) -> Option<RenameRule> {
    if s == "lowercase"@ {
        Some(RenameRule::Lowercase)
    } else if s == "UPPERCASE"@ {
        Some(RenameRule::Uppercase)
    } else if s == "PascalCase"@ {
        Some(RenameRule::PascalCase)
    } else if s == "camelCase"@ {
        Some(RenameRule::CamelCase)
    } else if s == "snake_case"@ {
        Some(RenameRule::SnakeCase)
    } else if s == "SCREAMING_SNAKE_CASE"@ {
        Some(RenameRule::ScreamingSnakeCase)
    } else if s == "kebab-case"@ {
        Some(RenameRule::KebabCase)
    } else if s == "SCREAMING-KEBAB-CASE"@ {
        Some(RenameRule::ScreamingKebabCase)
    } else {
        None
    }
}

/// The transform a rule performs on an identifier.
pub open spec fn apply_spec(rule: RenameRule, s: Seq<char>) -> Seq<char> {
    match rule {
        RenameRule::Lowercase => lower_seq(s),
        RenameRule::Uppercase => upper_seq(s),
        RenameRule::PascalCase => pascal_of(s),
        RenameRule::CamelCase => camel_of(s),
        RenameRule::SnakeCase => snake_of(s),
        RenameRule::ScreamingSnakeCase => screaming_snake_of(s),
        RenameRule::KebabCase => kebab_of(s),
        RenameRule::ScreamingKebabCase => screaming_kebab_of(s),
        RenameRule::Passthrough => s,
    }
}

impl RenameRule {
    /// Parse a string into a `RenameRule`
    pub fn from_str(rule: &str) -> (r: Option<Self>)
        ensures
            r == rule_of_name(rule@),
    {
        if str_eq(rule, "lowercase") {
            Some(RenameRule::Lowercase)
        } else if str_eq(rule, "UPPERCASE") {
            Some(RenameRule::Uppercase)
        } else if str_eq(rule, "PascalCase") {
            Some(RenameRule::PascalCase)
        } else if str_eq(rule, "camelCase") {
            Some(RenameRule::CamelCase)
        } else if str_eq(rule, "snake_case") {
            Some(RenameRule::SnakeCase)
        } else if str_eq(rule, "SCREAMING_SNAKE_CASE") {
            Some(RenameRule::ScreamingSnakeCase)
        } else if str_eq(rule, "kebab-case") {
            Some(RenameRule::KebabCase)
        } else if str_eq(rule, "SCREAMING-KEBAB-CASE") {
            Some(RenameRule::ScreamingKebabCase)
        } else {
            None
        }
    }

    /// Apply this renaming rule to a string
    pub fn apply(self, input: &str) -> (r: String)
        ensures
            r@ == apply_spec(self, input@),
    {
        match self {
            RenameRule::Lowercase => to_lowercase(input),
            RenameRule::Uppercase => to_uppercase(input),
            RenameRule::PascalCase => to_pascal_case(input),
            RenameRule::CamelCase => to_camel_case(input),
            RenameRule::SnakeCase => to_snake_case(input),
            RenameRule::ScreamingSnakeCase => to_screaming_snake_case(input),
            RenameRule::KebabCase => to_kebab_case(input),
            RenameRule::ScreamingKebabCase => to_screaming_kebab_case(input),
            RenameRule::Passthrough => String::from_str(input),
        }
    }
}

/// PascalCase turned UPPER_SNAKE_CASE, processed up to (excluding) the
/// character at `i`: every character is uppercased, and an underscore
/// precedes each already-uppercase character except the first of the
/// string.
pub open spec fn upper_snake_prefix(s: Seq<char>, i: int) -> Seq<char>
    decreases i,
{
    if i <= 0 || i > s.len() {
        Seq::empty()
    } else {
        let front = upper_snake_prefix(s, i - 1);
        let c = s[i - 1];
        if is_upper(c) && i - 1 > 0 {
            front.push('_').push(c)
        } else {
            front.push(upper_char(c))
        }
    }
}

/// `PascalCase` turned `UPPER_SNAKE_CASE`.
pub open spec fn upper_snake_of(s: Seq<char>) -> Seq<char> {
    upper_snake_prefix(s, s.len() as int)
}

/// Converts PascalCase to UPPER_SNAKE_CASE
pub fn to_upper_snake_case(input: &str) -> (r: String)
    ensures
        r@ == upper_snake_of(input@),
{
    let n = input.unicode_len();
    let mut out = String::new();
    let mut i: usize = 0;
    proof {
        assert(out@ =~= upper_snake_prefix(input@, 0));
    }
    while i < n
        invariant
            n == input@.len(),
            0 <= i <= n,
            out@ == upper_snake_prefix(input@, i as int),
        decreases n - i,
    {
        let c = input.get_char(i);
        if char_is_upper(c) {
            if i > 0 {
                push_char(&mut out, '_');
            }
            push_char(&mut out, c);
        } else {
            push_char(&mut out, char_to_upper(c));
        }
        i = i + 1;
    }
    out
}

/// Removes the `r#` prefix from a raw identifier string, if present.
pub fn normalize_ident_str(ident_str: &str) -> (r: &str)
    ensures
        r@ == normalized_ident(ident_str@),
{
    let n = ident_str.unicode_len();
    if n >= 2 && ident_str.get_char(0) == 'r' && ident_str.get_char(1) == '#' {
        let rest = ident_str.substring_char(2, n);
        rest
    } else {
        ident_str
    }
}

/// An identifier with the raw-identifier marker `r#` stripped.
pub open spec fn normalized_ident(s: Seq<char>) -> Seq<char> {
    if s.len() >= 2 && s[0] == 'r' && s[1] == '#' {
        s.subrange(2, s.len() as int)
    } else {
        s
    }
}

/// Case folding settles after one application: lowering or uppering a
/// character again changes nothing, and uppering undoes the lowering of
/// an uppercase character.
pub proof fn lemma_case_chars(c: char)
    ensures
        lower_char(lower_char(c)) == lower_char(c),
        upper_char(upper_char(c)) == upper_char(c),
        upper_char(lower_char(upper_char(c))) == upper_char(c),
{
}

/// Lowercasing a sequence is idempotent.
pub proof fn lemma_lower_seq_idempotent(s: Seq<char>)
    ensures
        lower_seq(lower_seq(s)) == lower_seq(s),
{
    assert forall|i: int| 0 <= i < s.len() implies lower_char(lower_char(s[i])) == lower_char(
        s[i],
    ) by {
        lemma_case_chars(s[i]);
    }
    assert(lower_seq(lower_seq(s)) =~= lower_seq(s));
}

/// Uppercasing a sequence is idempotent.
pub proof fn lemma_upper_seq_idempotent(s: Seq<char>)
    ensures
        upper_seq(upper_seq(s)) == upper_seq(s),
{
    assert forall|i: int| 0 <= i < s.len() implies upper_char(upper_char(s[i])) == upper_char(
        s[i],
    ) by {
        lemma_case_chars(s[i]);
    }
    assert(upper_seq(upper_seq(s)) =~= upper_seq(s));
}

/// Capitalizing a word is idempotent.
pub proof fn lemma_capitalize_idempotent(w: Seq<char>)
    ensures
        capitalize_word(capitalize_word(w)) == capitalize_word(w),
{
    if w.len() > 0 {
        let cw = capitalize_word(w);
        lemma_case_chars(w[0]);
        assert(cw.drop_first() =~= w.drop_first());
        assert(capitalize_word(cw) =~= cw);
    }
}

/// Re-capitalizing restores a capitalized word whose first character
/// was lowercased.
pub proof fn lemma_capitalize_lower_first(w: Seq<char>)
    ensures
        capitalize_word(lower_first(capitalize_word(w))) == capitalize_word(w),
{
    if w.len() > 0 {
        let cw = capitalize_word(w);
        let lw = lower_first(cw);
        lemma_case_chars(w[0]);
        assert(cw.drop_first() =~= w.drop_first());
        assert(lw.drop_first() =~= w.drop_first());
        assert(lw[0] == lower_char(upper_char(w[0])));
        assert(capitalize_word(lw) =~= cw);
    }
}

/// The words the first application's output splits back into, compared
/// with the (case-folded) words of the input: a rule's second
/// application can only be the identity when these agree.  The three
/// rules that never re-split hold trivially.
pub open spec fn resplit_consistent(rule: RenameRule, s: Seq<char>) -> bool {
    match rule {
        RenameRule::Lowercase => true,
        RenameRule::Uppercase => true,
        RenameRule::Passthrough => true,
        RenameRule::PascalCase => split_words(pascal_of(s)) == split_words(s).map_values(
            |w: Seq<char>| capitalize_word(w),
        ),
        RenameRule::CamelCase => {
            let cs = split_words(s).map_values(|w: Seq<char>| capitalize_word(w));
            split_words(camel_of(s)) == if cs.len() == 0 {
                cs
            } else {
                cs.update(0, lower_first(cs[0]))
            }
        },
        RenameRule::SnakeCase => split_words(snake_of(s)) == lower_words(split_words(s)),
        RenameRule::ScreamingSnakeCase => split_words(screaming_snake_of(s)) == upper_words(
            split_words(s),
        ),
        RenameRule::KebabCase => split_words(kebab_of(s)) == lower_words(split_words(s)),
        RenameRule::ScreamingKebabCase => split_words(screaming_kebab_of(s)) == upper_words(
            split_words(s),
        ),
    }
}

/// Applying a rule twice is the same as applying it once, whenever the
/// first application's output is re-split into words identically — in
/// particular for any input already in a single-case,
/// separator-consistent form.
pub proof fn lemma_apply_idempotent(rule: RenameRule, s: Seq<char>)
    requires
        resplit_consistent(rule, s),
    ensures
        apply_spec(rule, apply_spec(rule, s)) == apply_spec(rule, s),
{
    let ws = split_words(s);
    match rule {
        RenameRule::Lowercase => {
            lemma_lower_seq_idempotent(s);
        },
        RenameRule::Uppercase => {
            lemma_upper_seq_idempotent(s);
        },
        RenameRule::Passthrough => {
        },
        RenameRule::PascalCase => {
            let cs = ws.map_values(|w: Seq<char>| capitalize_word(w));
            assert forall|i: int| 0 <= i < cs.len() implies capitalize_word(cs[i])
                == cs[i] by {
                lemma_capitalize_idempotent(ws[i]);
            }
            assert(cs.map_values(|w: Seq<char>| capitalize_word(w)) =~= cs);
        },
        RenameRule::CamelCase => {
            let cs = ws.map_values(|w: Seq<char>| capitalize_word(w));
            if cs.len() == 0 {
                assert(pascal_of(camel_of(s)) == concat_words(cs));
            } else {
                let rs = cs.update(0, lower_first(cs[0]));
                assert forall|i: int| 0 <= i < rs.len() implies capitalize_word(rs[i])
                    == cs[i] by {
                    if i == 0 {
                        lemma_capitalize_lower_first(ws[0]);
                    } else {
                        lemma_capitalize_idempotent(ws[i]);
                    }
                }
                assert(rs.map_values(|w: Seq<char>| capitalize_word(w)) =~= cs);
                assert(pascal_of(camel_of(s)) == concat_words(cs));
            }
        },
        RenameRule::SnakeCase => {
            lemma_lower_words_idempotent(ws);
        },
        RenameRule::ScreamingSnakeCase => {
            lemma_upper_words_idempotent(ws);
        },
        RenameRule::KebabCase => {
            lemma_lower_words_idempotent(ws);
        },
        RenameRule::ScreamingKebabCase => {
            lemma_upper_words_idempotent(ws);
        },
    }
}

/// Lowercasing every word is idempotent.
pub proof fn lemma_lower_words_idempotent(ws: Seq<Seq<char>>)
    ensures
        lower_words(lower_words(ws)) == lower_words(ws),
{
    assert forall|i: int| 0 <= i < ws.len() implies lower_seq(lower_seq(ws[i])) == lower_seq(
        ws[i],
    ) by {
        lemma_lower_seq_idempotent(ws[i]);
    }
    assert(lower_words(lower_words(ws)) =~~= lower_words(ws));
}

/// Uppercasing every word is idempotent.
pub proof fn lemma_upper_words_idempotent(ws: Seq<Seq<char>>)
    ensures
        upper_words(upper_words(ws)) == upper_words(ws),
{
    assert forall|i: int| 0 <= i < ws.len() implies upper_seq(upper_seq(ws[i])) == upper_seq(
        ws[i],
    ) by {
        lemma_upper_seq_idempotent(ws[i]);
    }
    assert(upper_words(upper_words(ws)) =~~= upper_words(ws));
}

/// Splitting looks only at the suffix still to be read: processing
/// from position `i + j` of `s` is processing the suffix `s.skip(i)`
/// from position `j`.
proof fn lemma_split_rec_shift(
    s: Seq<char>,
    i: int,
    j: int,
    cur: Seq<char>,
    pl: bool,
    pu: bool,
    acc: Seq<Seq<char>>,
)
    requires
        0 <= i,
        0 <= j,
        i + j <= s.len(),
    ensures
        split_rec(s, i + j, cur, pl, pu, acc) == split_rec(s.skip(i), j, cur, pl, pu, acc),
    decreases s.len() - i - j,
{
    let t = s.skip(i);
    if i + j >= s.len() {
        assert(j >= t.len());
    } else {
        assert(t[j] == s[i + j]);
        if i + j + 1 < s.len() {
            assert(t[j + 1] == s[i + j + 1]);
        }
        let c = s[i + j];
        if is_word_sep(c) {
            lemma_split_rec_shift(
                s,
                i,
                j + 1,
                Seq::empty(),
                false,
                false,
                if cur.len() > 0 {
                    acc.push(cur)
                } else {
                    acc
                },
            );
        } else if is_upper(c) {
            if cur.len() > 0 && (pl || (pu && i + j + 1 < s.len() && is_lower(s[i + j + 1]))) {
                lemma_split_rec_shift(s, i, j + 1, seq![c], false, true, acc.push(cur));
            } else {
                lemma_split_rec_shift(s, i, j + 1, cur.push(c), false, true, acc);
            }
        } else {
            lemma_split_rec_shift(s, i, j + 1, cur.push(c), true, false, acc);
        }
    }
}

/// True for a character that neither separates words nor opens one: it
/// can only extend the word being read.
pub open spec fn is_plain_char(c: char) -> bool {
    !is_word_sep(c) && !is_upper(c)
}

/// True for a word the splitter reads back exactly as it stands: it is
/// non-empty and all its characters are plain.
pub open spec fn is_plain_word(w: Seq<char>) -> bool {
    w.len() > 0 && forall|i: int| 0 <= i < w.len() ==> is_plain_char(#[trigger] w[i])
}

/// Reading the plain prefix `w` of `s` only accumulates it: no split
/// fires inside.
proof fn lemma_split_rec_plain_prefix(
    s: Seq<char>,
    k: int,
    w: Seq<char>,
    pl: bool,
    pu: bool,
    acc: Seq<Seq<char>>,
)
    requires
        0 <= k < w.len() <= s.len(),
        s.subrange(0, w.len() as int) == w,
        is_plain_word(w),
    ensures
        split_rec(s, k, w.take(k), pl, pu, acc) == split_rec(s, w.len() as int, w, true, false, acc),
    decreases w.len() - k,
{
    assert(s[k] == w[k]);
    assert(is_plain_char(w[k]));
    assert(w.take(k).push(s[k]) =~= w.take(k + 1));
    if k + 1 < w.len() {
        lemma_split_rec_plain_prefix(s, k + 1, w, true, false, acc);
    } else {
        assert(w.take(k + 1) =~= w);
    }
}

/// A joined word list starts with its first word; the rest follows
/// after one separator.
proof fn lemma_join_head(ws: Seq<Seq<char>>, sep: char)
    requires
        ws.len() >= 1,
    ensures
        join_words(ws, sep) == ws[0] + (if ws.len() == 1 {
            Seq::<char>::empty()
        } else {
            seq![sep] + join_words(ws.drop_first(), sep)
        }),
    decreases ws.len(),
{
    if ws.len() == 1 {
        assert(join_words(ws, sep) =~= ws[0] + Seq::<char>::empty());
    } else if ws.len() == 2 {
        assert(ws.drop_last().len() == 1);
        assert(ws.drop_last()[0] == ws[0]);
        assert(ws.drop_first().len() == 1);
        assert(ws.drop_first()[0] == ws.last());
        assert(join_words(ws.drop_last(), sep) == ws[0]);
        assert(join_words(ws.drop_first(), sep) == ws.last());
        assert(join_words(ws, sep) == ws[0].push(sep) + ws.last());
        assert(ws[0].push(sep) + ws.last() =~= ws[0] + (seq![sep] + ws.last()));
    } else {
        let dl = ws.drop_last();
        let df = ws.drop_first();
        lemma_join_head(dl, sep);
        assert(dl[0] == ws[0]);
        assert(dl.drop_first() =~= df.drop_last());
        let a = join_words(df.drop_last(), sep);
        assert(join_words(dl, sep) == ws[0] + (seq![sep] + a));
        assert(join_words(ws, sep) == (ws[0] + (seq![sep] + a)).push(sep) + ws.last());
        assert(df.last() == ws.last());
        assert(df.len() >= 2);
        assert(join_words(df, sep) == a.push(sep) + ws.last());
        assert((ws[0] + (seq![sep] + a)).push(sep) + ws.last() =~= ws[0] + (seq![sep] + (a.push(
            sep,
        ) + ws.last())));
    }
}

/// Splitting the join of plain words gives those words back, appended
/// to whatever was already produced.
proof fn lemma_split_rec_join_plain(ws: Seq<Seq<char>>, sep: char, acc: Seq<Seq<char>>)
    requires
        is_word_sep(sep),
        forall|k: int| 0 <= k < ws.len() ==> is_plain_word(#[trigger] ws[k]),
    ensures
        split_rec(join_words(ws, sep), 0, Seq::empty(), false, false, acc) == acc + ws,
    decreases ws.len(),
{
    let s = join_words(ws, sep);
    if ws.len() == 0 {
        assert(acc + ws =~~= acc);
    } else {
        let w0 = ws[0];
        lemma_join_head(ws, sep);
        assert(s.subrange(0, w0.len() as int) =~= w0);
        assert(Seq::<char>::empty() =~= w0.take(0));
        lemma_split_rec_plain_prefix(s, 0, w0, false, false, acc);
        if ws.len() == 1 {
            assert(s.len() == w0.len());
            assert(split_rec(s, w0.len() as int, w0, true, false, acc) == acc.push(w0));
            assert(acc.push(w0) =~~= acc + ws);
        } else {
            let rest = ws.drop_first();
            assert(s[w0.len() as int] == sep);
            assert(split_rec(s, w0.len() as int, w0, true, false, acc) == split_rec(
                s,
                w0.len() as int + 1,
                Seq::<char>::empty(),
                false,
                false,
                acc.push(w0),
            ));
            lemma_split_rec_shift(
                s,
                w0.len() as int + 1,
                0,
                Seq::empty(),
                false,
                false,
                acc.push(w0),
            );
            assert(s.skip(w0.len() as int + 1) =~= join_words(rest, sep));
            lemma_split_rec_join_plain(rest, sep, acc.push(w0));
            assert(acc.push(w0) + rest =~~= acc + ws);
        }
    }
}

/// True for a non-empty word free of separator characters — the shape
/// of everything the splitter produces.
pub open spec fn sep_free_word(w: Seq<char>) -> bool {
    w.len() > 0 && forall|t: int| 0 <= t < w.len() ==> !is_word_sep(#[trigger] w[t])
}

/// Whatever the splitter's pass produces beyond the words already
/// collected is non-empty and free of separators.
proof fn lemma_split_rec_sep_free(
    s: Seq<char>,
    i: int,
    cur: Seq<char>,
    pl: bool,
    pu: bool,
    acc: Seq<Seq<char>>,
)
    requires
        forall|k: int| 0 <= k < acc.len() ==> sep_free_word(#[trigger] acc[k]),
        forall|t: int| 0 <= t < cur.len() ==> !is_word_sep(#[trigger] cur[t]),
    ensures
        forall|k: int|
            0 <= k < split_rec(s, i, cur, pl, pu, acc).len() ==> sep_free_word(
                #[trigger] split_rec(s, i, cur, pl, pu, acc)[k],
            ),
    decreases s.len() - i,
{
    if i < 0 || i >= s.len() {
        if cur.len() > 0 {
            assert forall|k: int| 0 <= k < acc.push(cur).len() implies sep_free_word(
                #[trigger] acc.push(cur)[k],
            ) by {
                if k == acc.len() {
                    assert(acc.push(cur)[k] == cur);
                }
            }
        }
    } else {
        let c = s[i];
        if cur.len() > 0 {
            assert forall|k: int| 0 <= k < acc.push(cur).len() implies sep_free_word(
                #[trigger] acc.push(cur)[k],
            ) by {
                if k == acc.len() {
                    assert(acc.push(cur)[k] == cur);
                }
            }
        }
        if is_word_sep(c) {
            let next_acc = if cur.len() > 0 {
                acc.push(cur)
            } else {
                acc
            };
            lemma_split_rec_sep_free(s, i + 1, Seq::empty(), false, false, next_acc);
            assert(split_rec(s, i, cur, pl, pu, acc) == split_rec(
                s,
                i + 1,
                Seq::empty(),
                false,
                false,
                next_acc,
            ));
        } else if is_upper(c) {
            if cur.len() > 0 && (pl || (pu && i + 1 < s.len() && is_lower(s[i + 1]))) {
                lemma_split_rec_sep_free(s, i + 1, seq![c], false, true, acc.push(cur));
                assert(split_rec(s, i, cur, pl, pu, acc) == split_rec(
                    s,
                    i + 1,
                    seq![c],
                    false,
                    true,
                    acc.push(cur),
                ));
            } else {
                lemma_split_rec_sep_free(s, i + 1, cur.push(c), false, true, acc);
                assert(split_rec(s, i, cur, pl, pu, acc) == split_rec(
                    s,
                    i + 1,
                    cur.push(c),
                    false,
                    true,
                    acc,
                ));
            }
        } else {
            lemma_split_rec_sep_free(s, i + 1, cur.push(c), true, false, acc);
            assert(split_rec(s, i, cur, pl, pu, acc) == split_rec(
                s,
                i + 1,
                cur.push(c),
                true,
                false,
                acc,
            ));
        }
    }
}

/// Every word an identifier splits into is non-empty and free of
/// separators.
pub proof fn lemma_split_words_sep_free(s: Seq<char>)
    ensures
        forall|k: int|
            0 <= k < split_words(s).len() ==> sep_free_word(#[trigger] split_words(s)[k]),
{
    lemma_split_rec_sep_free(s, 0, Seq::empty(), false, false, Seq::empty());
}

/// Lowercasing a separator-free word leaves a plain word: no
/// uppercase letter survives and no separator appears.
proof fn lemma_lower_word_plain(w: Seq<char>)
    requires
        sep_free_word(w),
    ensures
        is_plain_word(lower_seq(w)),
{
    assert forall|t: int| 0 <= t < lower_seq(w).len() implies is_plain_char(
        lower_seq(w)[t],
    ) by {
        assert(lower_seq(w)[t] == lower_char(w[t]));
        assert(!is_word_sep(w[t]));
    }
}

/// For every input, a snake_case or kebab-case rendering splits back
/// into exactly the lowercased words of that input.
pub proof fn lemma_lower_join_resplit(s: Seq<char>, sep: char)
    requires
        sep == '_' || sep == '-',
    ensures
        split_words(join_words(lower_words(split_words(s)), sep)) == lower_words(split_words(s)),
{
    let lws = lower_words(split_words(s));
    lemma_split_words_sep_free(s);
    assert forall|k: int| 0 <= k < lws.len() implies is_plain_word(#[trigger] lws[k]) by {
        assert(lws[k] == lower_seq(split_words(s)[k]));
        lemma_lower_word_plain(split_words(s)[k]);
    }
    lemma_split_rec_join_plain(lws, sep, Seq::empty());
    assert(Seq::<Seq<char>>::empty() + lws =~~= lws);
}

/// Converting to snake_case is idempotent, for every input.
pub proof fn lemma_snake_case_idempotent(s: Seq<char>)
    ensures
        snake_of(snake_of(s)) == snake_of(s),
{
    lemma_lower_join_resplit(s, '_');
    lemma_apply_idempotent(RenameRule::SnakeCase, s);
}

/// Converting to kebab-case is idempotent, for every input.
pub proof fn lemma_kebab_case_idempotent(s: Seq<char>)
    ensures
        kebab_of(kebab_of(s)) == kebab_of(s),
{
    lemma_lower_join_resplit(s, '-');
    lemma_apply_idempotent(RenameRule::KebabCase, s);
}

/// Reading a run of plain characters only extends the current word,
/// whatever word and flags the splitter arrived with.
proof fn lemma_split_rec_plain_run(
    s: Seq<char>,
    k: int,
    j: int,
    cur: Seq<char>,
    pl: bool,
    pu: bool,
    acc: Seq<Seq<char>>,
)
    requires
        0 <= k < j <= s.len(),
        forall|t: int| k <= t < j ==> is_plain_char(#[trigger] s[t]),
    ensures
        split_rec(s, k, cur, pl, pu, acc) == split_rec(
            s,
            j,
            cur + s.subrange(k, j),
            true,
            false,
            acc,
        ),
    decreases j - k,
{
    assert(is_plain_char(s[k]));
    if k + 1 == j {
        assert(cur.push(s[k]) =~= cur + s.subrange(k, j));
    } else {
        lemma_split_rec_plain_run(s, k + 1, j, cur.push(s[k]), true, false, acc);
        assert(cur.push(s[k]) + s.subrange(k + 1, j) =~= cur + s.subrange(k, j));
    }
}

/// A concatenation starts with its first part.
proof fn lemma_concat_head(ws: Seq<Seq<char>>)
    requires
        ws.len() >= 1,
    ensures
        concat_words(ws) == ws[0] + concat_words(ws.drop_first()),
    decreases ws.len(),
{
    if ws.len() == 1 {
        assert(ws.drop_last().len() == 0);
        assert(ws.drop_first().len() == 0);
        assert(concat_words(ws.drop_last()) == Seq::<char>::empty());
        assert(concat_words(ws.drop_first()) == Seq::<char>::empty());
        assert(concat_words(ws) == Seq::<char>::empty() + ws.last());
        assert(ws.last() == ws[0]);
        assert(Seq::<char>::empty() + ws[0] =~= ws[0] + Seq::<char>::empty());
    } else {
        let dl = ws.drop_last();
        let df = ws.drop_first();
        lemma_concat_head(dl);
        assert(dl[0] == ws[0]);
        assert(dl.drop_first() =~= df.drop_last());
        assert(concat_words(df) == concat_words(df.drop_last()) + df.last());
        assert(df.last() == ws.last());
        assert((ws[0] + concat_words(df.drop_last())) + ws.last() =~= ws[0] + (concat_words(
            df.drop_last(),
        ) + ws.last()));
    }
}

/// The shape of a capitalized word with at least one trailing
/// character: an uppercase head, then only plain characters.
pub open spec fn cap_shaped_word(w: Seq<char>) -> bool {
    w.len() >= 2 && is_upper(w[0]) && forall|t: int|
        1 <= t < w.len() ==> is_plain_char(#[trigger] w[t])
}

/// Splitting a run of words written without separators — the first
/// plain or capitalized, the rest capitalized — gives those words
/// back: each capitalized head opens a new word after the plain tail
/// of the one before.
proof fn lemma_split_rec_concat_caps(ws: Seq<Seq<char>>, acc: Seq<Seq<char>>)
    requires
        ws.len() >= 1 ==> is_plain_word(ws[0]) || cap_shaped_word(ws[0]),
        forall|k: int| 1 <= k < ws.len() ==> cap_shaped_word(#[trigger] ws[k]),
    ensures
        split_rec(concat_words(ws), 0, Seq::empty(), false, false, acc) == acc + ws,
    decreases ws.len(),
{
    let s = concat_words(ws);
    if ws.len() == 0 {
        assert(acc + ws =~~= acc);
    } else {
        let w0 = ws[0];
        let rest = ws.drop_first();
        lemma_concat_head(ws);
        assert(s.subrange(0, w0.len() as int) =~= w0);
        let e = w0.len() as int;
        if is_plain_word(w0) {
            lemma_split_rec_plain_run(s, 0, e, Seq::empty(), false, false, acc);
            assert(Seq::<char>::empty() + s.subrange(0, e) =~= w0);
        } else {
            assert(s[0] == w0[0]);
            assert(split_rec(s, 0, Seq::empty(), false, false, acc) == split_rec(
                s,
                1,
                seq![s[0]],
                false,
                true,
                acc,
            ));
            if w0.len() > 1 {
                lemma_split_rec_plain_run(s, 1, e, seq![s[0]], false, true, acc);
            }
            assert(seq![s[0]] + s.subrange(1, e) =~= w0);
        }
        assert(split_rec(s, 0, Seq::empty(), false, false, acc) == split_rec(
            s,
            e,
            w0,
            true,
            false,
            acc,
        ));
        if ws.len() == 1 {
            assert(s.len() == e);
            assert(split_rec(s, e, w0, true, false, acc) == acc.push(w0));
            assert(acc.push(w0) =~~= acc + ws);
        } else {
            let t = concat_words(rest);
            lemma_concat_head(rest);
            assert(rest[0].len() >= 2);
            assert(t[0] == rest[0][0]);
            assert(s[e] == t[0]);
            assert(is_upper(s[e]));
            assert(split_rec(s, e, w0, true, false, acc) == split_rec(
                s,
                e + 1,
                seq![s[e]],
                false,
                true,
                acc.push(w0),
            ));
            lemma_split_rec_shift(s, e, 1, seq![s[e]], false, true, acc.push(w0));
            assert(s.skip(e) =~= t);
            assert(split_rec(t, 0, Seq::empty(), false, false, acc.push(w0)) == split_rec(
                t,
                1,
                seq![t[0]],
                false,
                true,
                acc.push(w0),
            ));
            lemma_split_rec_concat_caps(rest, acc.push(w0));
            assert(acc.push(w0) + rest =~~= acc + ws);
        }
    }
}

/// True when every word of the identifier has at least two
/// characters, opens with an ASCII letter and continues with plain
/// characters only (no acronym tail) — the identifiers whose
/// PascalCase and camelCase renderings split back into the same words.
pub open spec fn words_letter_headed(s: Seq<char>) -> bool {
    forall|k: int|
        0 <= k < split_words(s).len() ==> ((#[trigger] split_words(s)[k]).len() >= 2 && (is_upper(
            split_words(s)[k][0],
        ) || is_lower(split_words(s)[k][0])) && (forall|t: int|
            1 <= t < split_words(s)[k].len() ==> is_plain_char(#[trigger] split_words(s)[k][t])))
}

/// Capitalizing a letter-headed, plain-tailed word of two or more
/// characters yields a capitalized shape: uppercase head, plain tail.
proof fn lemma_capitalize_shape(w: Seq<char>)
    requires
        w.len() >= 2,
        is_upper(w[0]) || is_lower(w[0]),
        forall|t: int| 1 <= t < w.len() ==> is_plain_char(#[trigger] w[t]),
    ensures
        cap_shaped_word(capitalize_word(w)),
        is_plain_word(lower_first(capitalize_word(w))),
{
    let cw = capitalize_word(w);
    assert(cw[0] == upper_char(w[0]));
    assert(is_upper(cw[0]));
    assert forall|t: int| 1 <= t < cw.len() implies is_plain_char(cw[t]) by {
        assert(cw[t] == w.drop_first()[t - 1]);
        assert(cw[t] == w[t]);
    }
    let lw = lower_first(cw);
    assert(lw[0] == lower_char(cw[0]));
    assert(is_plain_char(lw[0]));
    assert forall|t: int| 0 <= t < lw.len() implies is_plain_char(lw[t]) by {
        if t >= 1 {
            assert(lw[t] == cw[t]);
        }
    }
}

/// For a letter-headed input, the PascalCase rendering splits back
/// into exactly the capitalized words of that input.
pub proof fn lemma_pascal_resplit(s: Seq<char>)
    requires
        words_letter_headed(s),
    ensures
        split_words(pascal_of(s)) == split_words(s).map_values(|w: Seq<char>| capitalize_word(w)),
{
    let ws = split_words(s);
    let cs = ws.map_values(|w: Seq<char>| capitalize_word(w));
    lemma_split_words_sep_free(s);
    assert forall|k: int| 1 <= k < cs.len() implies cap_shaped_word(#[trigger] cs[k]) by {
        assert(cs[k] == capitalize_word(ws[k]));
        lemma_capitalize_shape(ws[k]);
    }
    if cs.len() >= 1 {
        assert(cs[0] == capitalize_word(ws[0]));
        lemma_capitalize_shape(ws[0]);
    }
    lemma_split_rec_concat_caps(cs, Seq::empty());
    assert(Seq::<Seq<char>>::empty() + cs =~~= cs);
}

/// Converting a letter-headed, plain-tailed identifier to PascalCase
/// is idempotent.
pub proof fn lemma_pascal_case_idempotent(s: Seq<char>)
    requires
        words_letter_headed(s),
    ensures
        pascal_of(pascal_of(s)) == pascal_of(s),
{
    lemma_pascal_resplit(s);
    lemma_apply_idempotent(RenameRule::PascalCase, s);
}

/// For a letter-headed input, the camelCase rendering splits back into
/// the capitalized words of that input, the first word's head
/// lowercased.
pub proof fn lemma_camel_resplit(s: Seq<char>)
    requires
        words_letter_headed(s),
    ensures
        split_words(camel_of(s)) == ({
            let cs = split_words(s).map_values(|w: Seq<char>| capitalize_word(w));
            if cs.len() == 0 {
                cs
            } else {
                cs.update(0, lower_first(cs[0]))
            }
        }),
{
    let ws = split_words(s);
    let cs = ws.map_values(|w: Seq<char>| capitalize_word(w));
    lemma_split_words_sep_free(s);
    if cs.len() == 0 {
        assert(pascal_of(s) == concat_words(cs));
        assert(camel_of(s) =~= Seq::<char>::empty());
        lemma_split_rec_concat_caps(cs, Seq::empty());
        assert(Seq::<Seq<char>>::empty() + cs =~~= cs);
        assert(concat_words(cs) =~= camel_of(s));
    } else {
        let ds = cs.update(0, lower_first(cs[0]));
        assert forall|k: int| 1 <= k < cs.len() implies cap_shaped_word(#[trigger] cs[k]) by {
            assert(cs[k] == capitalize_word(ws[k]));
            lemma_capitalize_shape(ws[k]);
        }
        assert(cs[0] == capitalize_word(ws[0]));
        lemma_capitalize_shape(ws[0]);
        lemma_concat_head(cs);
        lemma_concat_head(ds);
        assert(ds.drop_first() =~~= cs.drop_first());
        assert(ds[0] == lower_first(cs[0]));
        assert(cs[0].len() >= 2);
        assert(camel_of(s) == lower_first(concat_words(cs)));
        assert(lower_first(concat_words(cs)) =~= lower_first(cs[0]) + concat_words(
            cs.drop_first(),
        ));
        assert(camel_of(s) == concat_words(ds));
        assert forall|k: int| 1 <= k < ds.len() implies cap_shaped_word(#[trigger] ds[k]) by {
            assert(ds[k] == cs[k]);
        }
        lemma_split_rec_concat_caps(ds, Seq::empty());
        assert(Seq::<Seq<char>>::empty() + ds =~~= ds);
    }
}

/// Converting a letter-headed, plain-tailed identifier to camelCase
/// is idempotent.
pub proof fn lemma_camel_case_idempotent(s: Seq<char>)
    requires
        words_letter_headed(s),
    ensures
        camel_of(camel_of(s)) == camel_of(s),
{
    lemma_camel_resplit(s);
    lemma_apply_idempotent(RenameRule::CamelCase, s);
}

/// A rule's output depends on nothing but the rule and the input: two
/// results computed for the same pair are the same string.
pub proof fn lemma_apply_deterministic(rule: RenameRule, s: Seq<char>, r1: Seq<char>, r2: Seq<char>)
    requires
        r1 == apply_spec(rule, s),
        r2 == apply_spec(rule, s),
    ensures
        r1 == r2,
{
}

} // verus!
