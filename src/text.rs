//! Text helpers: greedy word wrap, string building, and the few std string
//! operations the layout needs.
use vstd::prelude::*;
use vstd::string::*;

verus! {

/// The lines that textwrap's greedy wrap produces for `text` at `width`
/// columns.
pub uninterp spec fn wrapped_of(text: Seq<char>, width: nat) -> Seq<Seq<char>>;

/// `s` in upper case, as `str::to_uppercase` gives it.
pub uninterp spec fn upper_of(s: Seq<char>) -> Seq<char>;

/// `s` in lower case, as `str::to_lowercase` gives it.
pub uninterp spec fn lower_of(s: Seq<char>) -> Seq<char>;

/// `s` without leading and trailing white space, as `str::trim` gives it.
pub uninterp spec fn trimmed_of(s: Seq<char>) -> Seq<char>;

/// The white-space separated words of `s`, as `str::split_whitespace`
/// gives them.
pub uninterp spec fn words_of(s: Seq<char>) -> Seq<Seq<char>>;

pub open spec fn views(v: Seq<String>) -> Seq<Seq<char>> {
    v.map_values(|s: String| s@)
}

pub open spec fn has_suffix(s: Seq<char>, suffix: Seq<char>) -> bool {
    s.len() >= suffix.len() && s.subrange(s.len() - suffix.len(), s.len() as int) == suffix
}

/// Appends `t` to `s`.
pub fn push_text(s: &mut String, t: &str)
    ensures
        final(s)@ == old(s)@ + t@,
{
    s.append(t)
}

/// Whether `s` ends with `suffix`.
pub fn ends_with(s: &str, suffix: &str) -> (r: bool)
    ensures
        r == has_suffix(s@, suffix@),
{
    let n = s.unicode_len();
    let m = suffix.unicode_len();
    if m > n {
        return false;
    }
    let mut k: usize = 0;
    while k < m
        invariant
            n == s@.len(),
            m == suffix@.len(),
            m <= n,
            k <= m,
            forall|j: int| 0 <= j < k ==> s@[n - m + j] == suffix@[j],
        decreases m - k,
    {
        if s.get_char(n - m + k) != suffix.get_char(k) {
            assert(s@.subrange(n - m, n as int)[k as int] != suffix@[k as int]);
            return false;
        }
        k = k + 1;
    }
    assert(s@.subrange(n - m, n as int) =~= suffix@);
    true
}

/// Relies on `textwrap::wrap` with the first-fit algorithm: the lines of
/// `text` wrapped greedily to `width` columns.
#[verifier::external_body]
fn wrap_lines(text: &str, width: usize) -> (r: Vec<String>)
    ensures
        views(r@) == wrapped_of(text@, width as nat),
{
    let options = textwrap::Options::new(width).wrap_algorithm(textwrap::core::WrapAlgorithm::FirstFit);
    textwrap::wrap(text, options).into_iter().map(|line| line.into_owned()).collect()
}

/// Relies on `str::to_uppercase`.
#[verifier::external_body]
pub(crate) fn to_upper(s: &str) -> (r: String)
    ensures
        r@ == upper_of(s@),
{
    s.to_uppercase()
}

/// Relies on `str::to_lowercase`.
#[verifier::external_body]
pub(crate) fn to_lower(s: &str) -> (r: String)
    ensures
        r@ == lower_of(s@),
{
    s.to_lowercase()
}

/// Relies on `str::trim`.
#[verifier::external_body]
pub(crate) fn trim(s: &str) -> (r: String)
    ensures
        r@ == trimmed_of(s@),
{
    s.trim().to_string()
}

/// Relies on `str::split_whitespace`.
#[verifier::external_body]
pub(crate) fn split_words(s: &str) -> (r: Vec<String>)
    ensures
        views(r@) == words_of(s@),
{
    s.split_whitespace().map(|w| w.to_string()).collect()
}

/// The text of `s` before the first `sep`; all of `s` where it holds none.
pub open spec fn before_first(s: Seq<char>, sep: char) -> Seq<char>
    decreases s.len(),
{
    if s.len() == 0 {
        s
    } else if s[0] == sep {
        seq![]
    } else {
        seq![s[0]] + before_first(s.drop_first(), sep)
    }
}

/// The text of `s` after the first `sep`; empty where it holds none.
pub open spec fn after_first(s: Seq<char>, sep: char) -> Seq<char>
    decreases s.len(),
{
    if s.len() == 0 {
        s
    } else if s[0] == sep {
        s.drop_first()
    } else {
        after_first(s.drop_first(), sep)
    }
}

pub proof fn lemma_before_first(a: Seq<char>, b: Seq<char>, sep: char)
    requires
        !a.contains(sep),
    ensures
        before_first(a + seq![sep] + b, sep) == a,
        after_first(a + seq![sep] + b, sep) == b,
        before_first(a, sep) == a,
        after_first(a, sep).len() == 0,
    decreases a.len(),
{
    if a.len() == 0 {
        assert(a + seq![sep] + b =~= seq![sep] + b);
        assert((seq![sep] + b).drop_first() =~= b);
        assert(a =~= Seq::<char>::empty());
    } else {
        assert(!a.drop_first().contains(sep)) by {
            if a.drop_first().contains(sep) {
                let j = choose|j: int| 0 <= j < a.drop_first().len() && a.drop_first()[j] == sep;
                assert(a[j + 1] == sep);
            }
        }
        lemma_before_first(a.drop_first(), b, sep);
        assert((a + seq![sep] + b).drop_first() =~= a.drop_first() + seq![sep] + b);
        assert(a[0] != sep);
        assert(seq![a[0]] + a.drop_first() =~= a);
    }
}

/// Relies on `str::split_once`: the text before and after the first `sep`,
/// or `None` where `s` holds no `sep`.
#[verifier::external_body]
pub(crate) fn split_once(s: &str, sep: char) -> (r: Option<(String, String)>)
    ensures
        r is None <==> !s@.contains(sep),
        r matches Some((a, b)) ==> a@ + seq![sep] + b@ == s@ && !a@.contains(sep),
{
    s.split_once(sep).map(|(a, b)| (a.to_string(), b.to_string()))
}

/// Wraps `text` to lines of at most `width` columns, filling each line
/// with as many words as fit; the caller draws the lines one under the
/// other.
pub fn wrap(text: &str, width: usize) -> (r: Vec<String>)
    ensures
        views(r@) == wrapped_of(text@, width as nat),
{
    wrap_lines(text, width)
}

/// `parts` with `sep` between each two of them.
pub open spec fn joined(parts: Seq<Seq<char>>, sep: Seq<char>) -> Seq<char>
    decreases parts.len(),
{
    if parts.len() == 0 {
        seq![]
    } else if parts.len() == 1 {
        parts[0]
    } else {
        joined(parts.drop_last(), sep) + sep + parts.last()
    }
}

/// Joins `parts` with `sep` between each two of them.
pub fn join(parts: &Vec<String>, sep: &str) -> (r: String)
    ensures
        r@ == joined(views(parts@), sep@),
{
    let mut r = String::new();
    let mut i: usize = 0;
    while i < parts.len()
        invariant
            i <= parts.len(),
            r@ == joined(views(parts@.take(i as int)), sep@),
        decreases parts.len() - i,
    {
        proof {
            assert(views(parts@.take(i as int + 1)).drop_last() == views(parts@.take(i as int)));
        }
        if i > 0 {
            push_text(&mut r, sep);
        }
        push_text(&mut r, parts[i].as_str());
        i = i + 1;
        proof {
            if i == 1 {
                assert(r@ == parts@[0]@);
            }
        }
    }
    assert(parts@.take(parts.len() as int) == parts@);
    r
}

/// `s` followed by spaces up to `width` characters.
pub open spec fn padded(s: Seq<char>, width: nat) -> Seq<char> {
    if s.len() >= width {
        s
    } else {
        s + Seq::new((width - s.len()) as nat, |_i: int| ' ')
    }
}

/// Appends `s` to `out`, left-aligned in a field of `width` characters.
pub fn push_padded(out: &mut String, s: &str, width: usize)
    ensures
        final(out)@ == old(out)@ + padded(s@, width as nat),
{
    push_text(out, s);
    let ghost start = out@;
    let n = char_count(s);
    let mut k: usize = n;
    while k < width
        invariant
            n == s@.len(),
            n <= k <= width || (k == n && n >= width),
            out@ == start + Seq::new((k - n) as nat, |_i: int| ' '),
        decreases width - k,
    {
        push_text(out, " ");
        proof {
            reveal_strlit(" ");
            assert(Seq::new((k - n) as nat, |_i: int| ' ').push(' ') =~= Seq::new(
                (k + 1 - n) as nat,
                |_i: int| ' ',
            ));
        }
        k = k + 1;
    }
    proof {
        if n >= width {
            assert(Seq::new(0, |_i: int| ' ') =~= Seq::<char>::empty());
            assert(start + Seq::<char>::empty() =~= start);
        }
    }
}

/// The number of characters of `s`.
pub fn char_count(s: &str) -> (r: usize)
    ensures
        r == s@.len(),
{
    s.unicode_len()
}

/// `a` followed by `b`.
pub fn concat(a: &str, b: &str) -> (r: String)
    ensures
        r@ == a@ + b@,
{
    let mut r = a.to_owned();
    push_text(&mut r, b);
    r
}

/// Whether two strings hold the same characters.
pub fn same_text(a: &str, b: &str) -> (r: bool)
    ensures
        r == (a@ == b@),
{
    a.to_owned() == b.to_owned()
}

/// A copy of each string, in order.
pub fn copy_strings(v: &Vec<String>) -> (r: Vec<String>)
    ensures
        r@ == v@,
{
    let mut r: Vec<String> = Vec::new();
    let mut i: usize = 0;
    while i < v.len()
        invariant
            i <= v.len(),
            r@ == v@.take(i as int),
        decreases v.len() - i,
    {
        r.push(v[i].clone());
        proof {
            assert(v@.take(i as int + 1) == v@.take(i as int).push(v@[i as int]));
        }
        i = i + 1;
    }
    assert(v@.take(v.len() as int) == v@);
    r
}

/// A copy of the string, if there is one.
pub fn copy_optional(v: &Option<String>) -> (r: Option<String>)
    ensures
        r == *v,
{
    match v {
        Some(s) => Some(s.clone()),
        None => None,
    }
}

/// Relies on `String::from(char)`: the one-character text.
#[verifier::external_body]
pub(crate) fn char_text(c: char) -> (r: String)
    ensures
        r@ == seq![c],
{
    String::from(c)
}

/// The digit of `d`, for `d` below ten.
pub open spec fn digit_of(d: nat) -> char {
    if d == 0 {
        '0'
    } else if d == 1 {
        '1'
    } else if d == 2 {
        '2'
    } else if d == 3 {
        '3'
    } else if d == 4 {
        '4'
    } else if d == 5 {
        '5'
    } else if d == 6 {
        '6'
    } else if d == 7 {
        '7'
    } else if d == 8 {
        '8'
    } else {
        '9'
    }
}

/// The decimal digits of `n`, most significant first.
pub open spec fn digits_of(n: nat) -> Seq<char>
    decreases n,
{
    if n < 10 {
        seq![digit_of(n)]
    } else {
        digits_of(n / 10).push(digit_of(n % 10))
    }
}

/// The decimal digits of `v`, with a minus sign where it is negative.
pub open spec fn decimal_of(v: i64) -> Seq<char> {
    if v < 0 {
        seq!['-'] + digits_of((-v) as nat)
    } else {
        digits_of(v as nat)
    }
}

fn digit(d: u64) -> (r: char)
    requires
        d < 10,
    ensures
        r == digit_of(d as nat),
{
    if d == 0 {
        '0'
    } else if d == 1 {
        '1'
    } else if d == 2 {
        '2'
    } else if d == 3 {
        '3'
    } else if d == 4 {
        '4'
    } else if d == 5 {
        '5'
    } else if d == 6 {
        '6'
    } else if d == 7 {
        '7'
    } else if d == 8 {
        '8'
    } else {
        '9'
    }
}

/// The decimal digits of `n`.
pub fn digits(n: u64) -> (r: String)
    ensures
        r@ == digits_of(n as nat),
    decreases n,
{
    if n < 10 {
        char_text(digit(n))
    } else {
        let mut r = digits(n / 10);
        let last = char_text(digit(n % 10));
        push_text(&mut r, last.as_str());
        r
    }
}

/// `v` in decimal, with a minus sign where it is negative.
pub fn decimal(v: i64) -> (r: String)
    ensures
        r@ == decimal_of(v),
{
    if v < 0 {
        let magnitude: u64 = if v == i64::MIN {
            9223372036854775808u64
        } else {
            (-v) as u64
        };
        let mut r = char_text('-');
        let rest = digits(magnitude);
        push_text(&mut r, rest.as_str());
        r
    } else {
        digits(v as u64)
    }
}

} // verus!
