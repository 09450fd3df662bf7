//! Character-level helpers: whitespace, digits, HTML escaping and the
//! regular-expression clean-ups applied to scraped text.

use vstd::prelude::*;
use vstd::string::*;

verus! {

/// Unicode `White_Space`, the set that both `char::is_whitespace` and the
/// `\s` class of the `regex` crate (in its default Unicode mode) stand for.
pub open spec fn is_space(c: char) -> bool {
    ||| ('\u{9}' <= c && c <= '\u{d}')
    ||| c == ' '
    ||| c == '\u{85}'
    ||| c == '\u{a0}'
    ||| c == '\u{1680}'
    ||| ('\u{2000}' <= c && c <= '\u{200a}')
    ||| c == '\u{2028}'
    ||| c == '\u{2029}'
    ||| c == '\u{202f}'
    ||| c == '\u{205f}'
    ||| c == '\u{3000}'
}

pub open spec fn is_digit(c: char) -> bool {
    '0' <= c && c <= '9'
}

pub open spec fn is_ascii_letter(c: char) -> bool {
    ('a' <= c && c <= 'z') || ('A' <= c && c <= 'Z')
}

/// The characters of `s` that are ASCII digits, in order.
pub open spec fn digits_of(s: Seq<char>) -> Seq<char>
    decreases s.len(),
{
    if s.len() == 0 {
        Seq::empty()
    } else if is_digit(s[0]) {
        seq![s[0]] + digits_of(s.drop_first())
    } else {
        digits_of(s.drop_first())
    }
}

/// `s` without its leading whitespace.
pub open spec fn trim_start_ws(s: Seq<char>) -> Seq<char>
    decreases s.len(),
{
    if s.len() > 0 && is_space(s[0]) {
        trim_start_ws(s.drop_first())
    } else {
        s
    }
}

/// `s` without its trailing whitespace.
pub open spec fn trim_end_ws(s: Seq<char>) -> Seq<char>
    decreases s.len(),
{
    if s.len() > 0 && is_space(s.last()) {
        trim_end_ws(s.drop_last())
    } else {
        s
    }
}

/// `s` without whitespace at either end.
pub open spec fn trim_ws(s: Seq<char>) -> Seq<char> {
    trim_end_ws(trim_start_ws(s))
}

/// Number of `':'` at the front of `s`.
pub open spec fn colon_run(s: Seq<char>) -> nat
    decreases s.len(),
{
    if s.len() > 0 && s[0] == ':' {
        1 + colon_run(s.drop_first())
    } else {
        0
    }
}

/// A character that the duration clean-up drops on its own: an ASCII letter,
/// `'-'`, `'.'` or whitespace.
pub open spec fn is_duration_noise(c: char) -> bool {
    is_ascii_letter(c) || c == '-' || c == '.' || is_space(c)
}

/// What erasing every match of `([a-zA-Z-.\s]|:+\s)` leaves of `s`: single
/// noise characters go, and so does a run of colons together with the
/// whitespace character right after it.
pub open spec fn strip_duration_noise(s: Seq<char>) -> Seq<char>
    decreases s.len(),
{
    if s.len() == 0 {
        Seq::empty()
    } else if is_duration_noise(s[0]) {
        strip_duration_noise(s.drop_first())
    } else if s[0] == ':' && colon_run(s) < s.len() && is_space(s[colon_run(s) as int]) {
        strip_duration_noise(s.skip(colon_run(s) + 1int))
    } else {
        seq![s[0]] + strip_duration_noise(s.drop_first())
    }
}

/// The pattern `[^0-9]`.
pub open spec fn non_digit_pattern() -> Seq<char> {
    seq!['[', '^', '0', '-', '9', ']']
}

/// The pattern `^[\s\xA0]+|[\s\xA0]+$`.
pub open spec fn edge_space_pattern() -> Seq<char> {
    seq![
        '^', '[', '\\', 's', '\\', 'x', 'A', '0', ']', '+', '|',
        '[', '\\', 's', '\\', 'x', 'A', '0', ']', '+', '$',
    ]
}

/// The pattern `([a-zA-Z-.\s]|:+\s)`.
pub open spec fn duration_noise_pattern() -> Seq<char> {
    seq![
        '(', '[', 'a', '-', 'z', 'A', '-', 'Z', '-', '.', '\\', 's', ']', '|',
        ':', '+', '\\', 's', ')',
    ]
}

/// Whether `regex::Regex::new` accepts a pattern.
pub uninterp spec fn regex_accepts(pattern: Seq<char>) -> bool;

/// What `Regex::replace_all(text, "")` returns for a compiled `pattern`.
pub uninterp spec fn regex_erased(pattern: Seq<char>, text: Seq<char>) -> Seq<char>;

/// Compiles `pattern` with `regex::Regex::new` and erases every match in
/// `text` with `Regex::replace_all(text, "")`.
///
/// Trusted: the result is `None` exactly when the pattern does not compile,
/// and otherwise the erased text. For the three patterns this library uses
/// the contract spells out what `replace_all` leaves, by the regex syntax
/// documented by the crate: `[^0-9]` keeps the ASCII digits,
/// `^[\s\xA0]+|[\s\xA0]+$` trims whitespace at both ends (`\s` is Unicode
/// `White_Space`, which holds U+00A0), and `([a-zA-Z-.\s]|:+\s)` drops the
/// matches leftmost-first as `strip_duration_noise` describes.
#[verifier::external_body]
pub(crate) fn erase_matches(pattern: &str, text: &str) -> (res: Option<String>)
    ensures
        res is Some <==> regex_accepts(pattern@),
        res matches Some(s) ==> s@ == regex_erased(pattern@, text@),
        res is None ==> pattern@ != non_digit_pattern() && pattern@ != edge_space_pattern() && pattern@ != duration_noise_pattern(),
        res matches Some(s) ==> (pattern@ == non_digit_pattern() ==> s@ == digits_of(text@)),
        res matches Some(s) ==> (pattern@ == edge_space_pattern() ==> s@ == trim_ws(text@)),
        res matches Some(s) ==> (pattern@ == duration_noise_pattern() ==> s@ == strip_duration_noise(text@)),
{
    match regex::Regex::new(pattern) {
        Ok(re) => Some(re.replace_all(text, "").into_owned()),
        Err(_) => None,
    }
}

/// The entity that `htmlescape::encode_minimal` writes for `c`, or `c`
/// itself.
pub open spec fn escape_char(c: char) -> Seq<char> {
    if c == '"' {
        seq!['&', 'q', 'u', 'o', 't', ';']
    } else if c == '&' {
        seq!['&', 'a', 'm', 'p', ';']
    } else if c == '\'' {
        seq!['&', '#', 'x', '2', '7', ';']
    } else if c == '<' {
        seq!['&', 'l', 't', ';']
    } else if c == '>' {
        seq!['&', 'g', 't', ';']
    } else {
        seq![c]
    }
}

/// `s` with each of `" & ' < >` replaced by its entity.
pub open spec fn escape_minimal(s: Seq<char>) -> Seq<char>
    decreases s.len(),
{
    if s.len() == 0 {
        Seq::empty()
    } else {
        escape_minimal(s.drop_last()) + escape_char(s.last())
    }
}

/// `htmlescape::encode_minimal`.
///
/// Trusted: the crate writes each character of `s` in turn, replacing
/// `" & ' < >` by `&quot; &amp; &#x27; &lt; &gt;` and keeping every other
/// character.
#[verifier::external_body]
pub(crate) fn encode_minimal(s: &str) -> (res: String)
    ensures
        res@ == escape_minimal(s@),
{
    htmlescape::encode_minimal(s)
}

/// The ASCII digits of `s`, as erasing `[^0-9]` leaves them.
pub fn keep_digits(s: &str) -> (res: String)
    ensures
        res@ == digits_of(s@),
{
    let pattern = "[^0-9]";
    proof {
        reveal_strlit("[^0-9]");
        assert(pattern@ =~= non_digit_pattern());
    }
    match erase_matches(pattern, s) {
        Some(out) => out,
        None => {
            proof {
                assert(false);
            }
            String::new()
        },
    }
}

/// `s` without whitespace at either end, as erasing `^[\s\xA0]+|[\s\xA0]+$`
/// leaves it.
pub fn trim_spaces(s: &str) -> (res: String)
    ensures
        res@ == trim_ws(s@),
{
    let pattern = "^[\\s\\xA0]+|[\\s\\xA0]+$";
    proof {
        reveal_strlit("^[\\s\\xA0]+|[\\s\\xA0]+$");
        assert(pattern@ =~= edge_space_pattern());
    }
    match erase_matches(pattern, s) {
        Some(out) => out,
        None => {
            proof {
                assert(false);
            }
            String::new()
        },
    }
}

/// A duration label without its words and separators, as erasing
/// `([a-zA-Z-.\s]|:+\s)` leaves it: "Duration: 4:13." becomes "4:13".
pub fn strip_duration(s: &str) -> (res: String)
    ensures
        res@ == strip_duration_noise(s@),
{
    let pattern = "([a-zA-Z-.\\s]|:+\\s)";
    proof {
        reveal_strlit("([a-zA-Z-.\\s]|:+\\s)");
        assert(pattern@ =~= duration_noise_pattern());
    }
    match erase_matches(pattern, s) {
        Some(out) => out,
        None => {
            proof {
                assert(false);
            }
            String::new()
        },
    }
}

/// The index of the first `c` in `s`.
pub open spec fn index_of(s: Seq<char>, c: char) -> Option<int>
    decreases s.len(),
{
    if s.len() == 0 {
        None
    } else if s[0] == c {
        Some(0)
    } else {
        match index_of(s.drop_first(), c) {
            Some(k) => Some(k + 1),
            None => None,
        }
    }
}

/// The second of the pieces that splitting `s` at every `c` gives, if there
/// are two or more: what lies between the first `c` and the next one (or the
/// end).
pub open spec fn second_field(s: Seq<char>, c: char) -> Option<Seq<char>> {
    match index_of(s, c) {
        None => None,
        Some(k) => {
            let rest = s.skip(k + 1);
            match index_of(rest, c) {
                None => Some(rest),
                Some(m) => Some(rest.take(m)),
            }
        },
    }
}

/// `index_of` finds the first occurrence: none of `s[..i]` is `c`.
pub proof fn lemma_index_of(s: Seq<char>, c: char, i: int)
    requires
        0 <= i <= s.len(),
        forall|j: int| 0 <= j < i ==> s[j] != c,
    ensures
        i < s.len() && s[i] == c ==> index_of(s, c) == Some(i),
        i == s.len() ==> index_of(s, c) is None,
    decreases s.len(),
{
    if s.len() > 0 && i > 0 {
        assert forall|j: int| 0 <= j < i - 1 implies s.drop_first()[j] != c by {
            assert(s.drop_first()[j] == s[j + 1]);
        }
        lemma_index_of(s.drop_first(), c, i - 1);
    }
}

/// The first position at or after `from` that holds `c`, or the length.
fn scan_to(s: &str, n: usize, from: usize, c: char) -> (k: usize)
    requires
        n == s@.len(),
        from <= n,
    ensures
        from <= k <= n,
        forall|j: int| from <= j < k ==> s@[j] != c,
        k < n ==> s@[k as int] == c,
{
    let mut k = from;
    while k < n && s.get_char(k) != c
        invariant
            n == s@.len(),
            from <= k <= n,
            forall|j: int| from <= j < k ==> s@[j] != c,
        decreases n - k,
    {
        k = k + 1;
    }
    k
}

/// `s.split(c).collect::<Vec<_>>()[1]`, or `None` where there is no such
/// piece.
pub fn second_field_of(s: &str, c: char) -> (res: Option<String>)
    ensures
        res is Some <==> second_field(s@, c) is Some,
        res matches Some(f) ==> second_field(s@, c) == Some(f@),
{
    let n = s.unicode_len();
    let k = scan_to(s, n, 0, c);
    proof {
        lemma_index_of(s@, c, k as int);
    }
    if k == n {
        return None;
    }
    let m = scan_to(s, n, k + 1, c);
    let ghost rest = s@.skip(k + 1);
    proof {
        assert forall|j: int| 0 <= j < m - (k + 1) implies rest[j] != c by {
            assert(rest[j] == s@[j + k + 1]);
        }
        if m < n {
            assert(rest[m - (k + 1)] == s@[m as int]);
        }
        lemma_index_of(rest, c, m - (k + 1));
    }
    let piece = s.substring_char(k + 1, m);
    let out = String::from_str(piece);
    proof {
        if m < n {
            assert(piece@ =~= rest.take(m - (k + 1)));
        } else {
            assert(piece@ =~= rest);
        }
    }
    Some(out)
}

/// Whether two texts are the same, character by character.
pub fn same_text(a: &str, b: &str) -> (res: bool)
    ensures
        res == (a@ == b@),
{
    let n = a.unicode_len();
    if n != b.unicode_len() {
        return false;
    }
    let mut k: usize = 0;
    while k < n
        invariant
            n == a@.len(),
            n == b@.len(),
            0 <= k <= n,
            forall|j: int| 0 <= j < k ==> a@[j] == b@[j],
        decreases n - k,
    {
        if a.get_char(k) != b.get_char(k) {
            return false;
        }
        k = k + 1;
    }
    proof {
        assert(a@ =~= b@);
    }
    true
}

/// What `digits_of` keeps are digits.
pub proof fn law_digits_only(s: Seq<char>)
    ensures
        forall|i: int| 0 <= i < digits_of(s).len() ==> is_digit(#[trigger] digits_of(s)[i]),
    decreases s.len(),
{
    if s.len() > 0 {
        law_digits_only(s.drop_first());
        let rest = digits_of(s.drop_first());
        if is_digit(s[0]) {
            assert forall|i: int| 0 <= i < digits_of(s).len() implies is_digit(#[trigger] digits_of(s)[i]) by {
                if i > 0 {
                    assert(digits_of(s)[i] == rest[i - 1]);
                }
            }
        }
    }
}

proof fn lemma_trim_start(s: Seq<char>)
    ensures
        trim_start_ws(s).len() > 0 ==> !is_space(trim_start_ws(s)[0]),
        trim_start_ws(s).len() <= s.len(),
        trim_start_ws(s) == s.skip(s.len() - trim_start_ws(s).len()),
    decreases s.len(),
{
    if s.len() > 0 && is_space(s[0]) {
        lemma_trim_start(s.drop_first());
        let t = trim_start_ws(s.drop_first());
        assert(s.drop_first().skip(s.drop_first().len() - t.len()) =~= s.skip(s.len() - t.len()));
    } else {
        assert(s.skip(0) =~= s);
    }
}

proof fn lemma_trim_end(s: Seq<char>)
    ensures
        trim_end_ws(s).len() > 0 ==> !is_space(trim_end_ws(s).last()),
        trim_end_ws(s) == s.take(trim_end_ws(s).len() as int),
        trim_end_ws(s).len() <= s.len(),
    decreases s.len(),
{
    if s.len() > 0 && is_space(s.last()) {
        lemma_trim_end(s.drop_last());
        let t = trim_end_ws(s.drop_last());
        assert(s.drop_last().take(t.len() as int) =~= s.take(t.len() as int));
    } else {
        assert(s.take(s.len() as int) =~= s);
    }
}

/// Trimmed text neither starts nor ends with whitespace.
pub proof fn law_trimmed_edges(s: Seq<char>)
    ensures
        trim_ws(s).len() > 0 ==> !is_space(trim_ws(s)[0]) && !is_space(trim_ws(s).last()),
{
    let a = trim_start_ws(s);
    lemma_trim_start(s);
    lemma_trim_end(a);
    let b = trim_end_ws(a);
    if b.len() > 0 {
        assert(b[0] == a[0]);
    }
}

/// A cleaned-up duration holds no letters, whitespace, `'-'` or `'.'`.
pub proof fn law_duration_has_no_noise(s: Seq<char>)
    ensures
        forall|i: int| 0 <= i < strip_duration_noise(s).len() ==> !is_duration_noise(#[trigger] strip_duration_noise(s)[i]),
    decreases s.len(),
{
    if s.len() > 0 {
        if is_duration_noise(s[0]) {
            law_duration_has_no_noise(s.drop_first());
            assert(strip_duration_noise(s) == strip_duration_noise(s.drop_first()));
        } else if s[0] == ':' && colon_run(s) < s.len() && is_space(s[colon_run(s) as int]) {
            law_duration_has_no_noise(s.skip(colon_run(s) + 1int));
            assert(strip_duration_noise(s) == strip_duration_noise(s.skip(colon_run(s) + 1int)));
        } else {
            law_duration_has_no_noise(s.drop_first());
            let rest = strip_duration_noise(s.drop_first());
            assert forall|i: int| 0 <= i < strip_duration_noise(s).len() implies !is_duration_noise(#[trigger] strip_duration_noise(s)[i]) by {
                if i > 0 {
                    assert(strip_duration_noise(s)[i] == rest[i - 1]);
                }
            }
        }
    }
}

proof fn lemma_index_of_found(s: Seq<char>, c: char)
    ensures
        index_of(s, c) matches Some(k) ==> 0 <= k < s.len() && s[k] == c && forall|j: int| 0 <= j < k ==> s[j] != c,
        index_of(s, c) is None ==> forall|j: int| 0 <= j < s.len() ==> s[j] != c,
    decreases s.len(),
{
    if s.len() > 0 {
        lemma_index_of_found(s.drop_first(), c);
        if s[0] != c {
            assert forall|j: int| 1 <= j < s.len() implies s[j] == s.drop_first()[j - 1] by {}
        }
    }
}

/// The second piece of a split holds no separator.
pub proof fn law_second_field_has_no_separator(s: Seq<char>, c: char)
    ensures
        second_field(s, c) matches Some(f) ==> forall|i: int| 0 <= i < f.len() ==> f[i] != c,
{
    lemma_index_of_found(s, c);
    if let Some(k) = index_of(s, c) {
        let rest = s.skip(k + 1);
        lemma_index_of_found(rest, c);
    }
}

/// `f` is the second piece of `s` split at `c`: it follows the first `c` of
/// `s`, holds no `c`, and runs to the end of `s` or to the next `c`.
pub open spec fn is_second_piece(s: Seq<char>, c: char, f: Seq<char>) -> bool {
    exists|k: int|
        #![trigger s.subrange(k + 1, k + 1 + f.len())]
        {
            &&& 0 <= k && k + 1 + f.len() <= s.len()
            &&& s[k] == c
            &&& (forall|j: int| 0 <= j < k ==> s[j] != c)
            &&& s.subrange(k + 1, k + 1 + f.len()) == f
            &&& (forall|j: int| 0 <= j < f.len() ==> f[j] != c)
            &&& (k + 1 + f.len() == s.len() || s[k + 1 + f.len()] == c)
        }
}

/// The second piece exists exactly when `s` holds `c`, and it is the text
/// between the first `c` and the next one (or the end): nothing of it is cut
/// off and nothing else is added.
pub proof fn law_second_field_splits(s: Seq<char>, c: char)
    ensures
        second_field(s, c) is None <==> forall|j: int| 0 <= j < s.len() ==> s[j] != c,
        second_field(s, c) matches Some(f) ==> is_second_piece(s, c, f),
{
    lemma_index_of_found(s, c);
    if let Some(k) = index_of(s, c) {
        let rest = s.skip(k + 1);
        lemma_index_of_found(rest, c);
        let f = second_field(s, c).unwrap();
        match index_of(rest, c) {
            Some(m) => {
                assert(rest[m] == s[k + 1 + m]);
                assert forall|j: int| 0 <= j < f.len() implies f[j] != c by {
                    assert(f[j] == rest[j]);
                }
            },
            None => {
                assert forall|j: int| 0 <= j < f.len() implies f[j] != c by {
                    assert(f[j] == rest[j]);
                }
            },
        }
        assert(s.subrange(k + 1, k + 1 + f.len()) =~= f);
    } else {
        assert(!(s.len() > 0 && s[0] == c));
    }
}

/// `digits_of` keeps exactly the digits of `s`, in order.
pub proof fn law_digits_are_the_digit_subsequence(s: Seq<char>)
    ensures
        digits_of(s) == s.filter(|c: char| is_digit(c)),
    decreases s.len(),
{
    let p = |c: char| is_digit(c);
    if s.len() > 0 {
        law_digits_are_the_digit_subsequence(s.drop_first());
        assert(s =~= seq![s[0]] + s.drop_first());
        Seq::filter_distributes_over_add(seq![s[0]], s.drop_first(), p);
        assert(seq![s[0]].drop_last() =~= Seq::<char>::empty());
        assert(seq![s[0]].last() == s[0]);
        assert(Seq::<char>::empty().push(s[0]) =~= seq![s[0]]);
        let one = seq![s[0]];
        reveal_with_fuel(Seq::<char>::filter, 2);
        assert(one.len() == 1);
        assert(one.filter(p) == (if p(one.last()) { one.drop_last().filter(p).push(one.last()) } else { one.drop_last().filter(p) }));
        if is_digit(s[0]) {
            assert(one.filter(p) =~= seq![s[0]]);
        } else {
            assert(one.filter(p) =~= Seq::<char>::empty());
        }
    }
}

proof fn lemma_digits_of_concat(a: Seq<char>, b: Seq<char>)
    ensures
        digits_of(a + b) == digits_of(a) + digits_of(b),
    decreases a.len(),
{
    if a.len() == 0 {
        assert(a + b =~= b);
    } else {
        lemma_digits_of_concat(a.drop_first(), b);
        assert((a + b).drop_first() =~= a.drop_first() + b);
        assert((a + b)[0] == a[0]);
    }
}

proof fn lemma_digits_skip(s: Seq<char>, n: int)
    requires
        0 <= n <= s.len(),
        forall|x: int| 0 <= x < n ==> !is_digit(#[trigger] s[x]),
    ensures
        digits_of(s) == digits_of(s.skip(n)),
{
    assert(s =~= s.take(n) + s.skip(n));
    lemma_digits_of_concat(s.take(n), s.skip(n));
    lemma_no_digits(s.take(n));
}

proof fn lemma_no_digits(s: Seq<char>)
    requires
        forall|x: int| 0 <= x < s.len() ==> !is_digit(#[trigger] s[x]),
    ensures
        digits_of(s) == Seq::<char>::empty(),
    decreases s.len(),
{
    if s.len() > 0 {
        assert(!is_digit(s[0]));
        assert forall|x: int| 0 <= x < s.drop_first().len() implies !is_digit(#[trigger] s.drop_first()[x]) by {
            assert(s.drop_first()[x] == s[x + 1]);
        }
        lemma_no_digits(s.drop_first());
    }
}

proof fn lemma_colon_run(s: Seq<char>)
    ensures
        colon_run(s) <= s.len(),
        forall|x: int| 0 <= x < colon_run(s) ==> #[trigger] s[x] == ':',
    decreases s.len(),
{
    if s.len() > 0 && s[0] == ':' {
        lemma_colon_run(s.drop_first());
        assert forall|x: int| 0 <= x < colon_run(s) implies #[trigger] s[x] == ':' by {
            if x > 0 {
                assert(s[x] == s.drop_first()[x - 1]);
            }
        }
    }
}

/// Cleaning up a duration never drops or adds a digit: the digits of the
/// result are the digits of the label, in order.
pub proof fn law_duration_keeps_digits(s: Seq<char>)
    ensures
        digits_of(strip_duration_noise(s)) == digits_of(s),
    decreases s.len(),
{
    if s.len() > 0 {
        if is_duration_noise(s[0]) {
            law_duration_keeps_digits(s.drop_first());
            assert(strip_duration_noise(s) == strip_duration_noise(s.drop_first()));
        } else if s[0] == ':' && colon_run(s) < s.len() && is_space(s[colon_run(s) as int]) {
            let n = colon_run(s) + 1int;
            lemma_colon_run(s);
            law_duration_keeps_digits(s.skip(n));
            assert(strip_duration_noise(s) == strip_duration_noise(s.skip(n)));
            assert forall|x: int| 0 <= x < n implies !is_digit(#[trigger] s[x]) by {
                if x < colon_run(s) {
                    assert(s[x] == ':');
                }
            }
            lemma_digits_skip(s, n);
        } else {
            law_duration_keeps_digits(s.drop_first());
            let rest = strip_duration_noise(s.drop_first());
            assert(strip_duration_noise(s) == seq![s[0]] + rest);
            lemma_digits_of_concat(seq![s[0]], rest);
            lemma_digits_of_concat(seq![s[0]], s.drop_first());
            assert(seq![s[0]] + s.drop_first() =~= s);
        }
    }
}

proof fn lemma_trim_start_all_space(s: Seq<char>)
    ensures
        forall|x: int| 0 <= x < s.len() - trim_start_ws(s).len() ==> is_space(#[trigger] s[x]),
    decreases s.len(),
{
    if s.len() > 0 && is_space(s[0]) {
        lemma_trim_start_all_space(s.drop_first());
        lemma_trim_start(s.drop_first());
        assert forall|x: int| 0 <= x < s.len() - trim_start_ws(s).len() implies is_space(#[trigger] s[x]) by {
            if x > 0 {
                assert(s[x] == s.drop_first()[x - 1]);
            }
        }
    }
}

proof fn lemma_trim_end_all_space(s: Seq<char>)
    ensures
        forall|x: int| trim_end_ws(s).len() <= x < s.len() ==> is_space(#[trigger] s[x]),
    decreases s.len(),
{
    if s.len() > 0 && is_space(s.last()) {
        lemma_trim_end_all_space(s.drop_last());
        lemma_trim_end(s.drop_last());
        assert forall|x: int| trim_end_ws(s).len() <= x < s.len() implies is_space(#[trigger] s[x]) by {
            if x < s.len() - 1 {
                assert(s[x] == s.drop_last()[x]);
            }
        }
    }
}

/// Trimming keeps a stretch `s[i..j]` of the text and drops only
/// whitespace before and after it; the kept stretch neither starts nor ends
/// with whitespace.
pub proof fn law_trim_keeps_the_middle(s: Seq<char>)
    ensures
        exists|i: int, j: int|
            #![trigger s.subrange(i, j)]
            {
                &&& 0 <= i <= j <= s.len()
                &&& trim_ws(s) == s.subrange(i, j)
                &&& (forall|x: int| 0 <= x < i ==> is_space(#[trigger] s[x]))
                &&& (forall|x: int| j <= x < s.len() ==> is_space(#[trigger] s[x]))
                &&& (i < j ==> !is_space(s[i]) && !is_space(s[j - 1]))
            },
{
    let a = trim_start_ws(s);
    lemma_trim_start(s);
    lemma_trim_start_all_space(s);
    lemma_trim_end(a);
    lemma_trim_end_all_space(a);
    let b = trim_end_ws(a);
    let i = s.len() - a.len();
    let j = i + b.len();
    assert(b =~= s.subrange(i, j));
    assert forall|x: int| j <= x < s.len() implies is_space(#[trigger] s[x]) by {
        assert(s[x] == a[x - i]);
    }
    if i < j {
        assert(s[i] == b[0]);
        assert(s[j - 1] == b.last());
    }
    assert(trim_ws(s) == s.subrange(i, j));
}

} // verus!
