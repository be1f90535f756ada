use vstd::prelude::*;
use vstd::string::StrSliceExecFns;

verus! {

/// The lower-case form of a text, as Unicode defines it.
pub uninterp spec fn lowered(s: Seq<char>) -> Seq<char>;

/// Lower-cases a word. Calls `str::to_lowercase`; the contract only names
/// the result, it does not say which characters change.
#[verifier::external_body]
pub(crate) fn lowercase(s: &str) -> (r: String)
    ensures
        r@ == lowered(s@),
{
    s.to_lowercase()
}

/// Whether `c` is one of the decimal digits `0` to `9`.
pub open spec fn is_digit(c: char) -> bool {
    48 <= c as int <= 57
}

/// The number that a run of decimal digits denotes (0 for the empty run).
pub open spec fn digits_value(s: Seq<char>) -> int
    decreases s.len(),
{
    if s.len() == 0 {
        0
    } else {
        10 * digits_value(s.drop_last()) + (s.last() as int - 48)
    }
}

/// The digits of a literal: the text without its leading sign, if it has one.
pub open spec fn literal_digits(s: Seq<char>) -> Seq<char> {
    if s.len() > 0 && (s[0] == '-' || s[0] == '+') {
        s.subrange(1, s.len() as int)
    } else {
        s
    }
}

/// The signed number that a literal denotes, before any range check.
pub open spec fn literal_value(s: Seq<char>) -> int {
    if s.len() > 0 && s[0] == '-' {
        -digits_value(literal_digits(s))
    } else {
        digits_value(literal_digits(s))
    }
}

/// A token is an integer literal when it is an optional sign followed by at
/// least one decimal digit and nothing else, and its value fits in 64 bits.
pub open spec fn literal(s: Seq<char>) -> Option<i64> {
    let body = literal_digits(s);
    if body.len() > 0 && all_digits(body) && i64::MIN <= literal_value(s) <= i64::MAX {
        Some(literal_value(s) as i64)
    } else {
        None
    }
}

/// Whether every character is a decimal digit.
pub open spec fn all_digits(s: Seq<char>) -> bool {
    forall|i: int| 0 <= i < s.len() ==> is_digit(#[trigger] s[i])
}

/// A run of digits denotes at least what any of its beginnings denotes.
proof fn lemma_digits_value_grows(s: Seq<char>, k: int)
    requires
        all_digits(s),
        0 <= k <= s.len(),
    ensures
        0 <= digits_value(s.take(k)) <= digits_value(s),
    decreases s.len(),
{
    if s.len() == 0 {
        assert(s.take(k) =~= s);
    } else {
        let front = s.drop_last();
        assert(is_digit(s[s.len() - 1]));
        assert(all_digits(front)) by {
            assert forall|i: int| 0 <= i < front.len() implies is_digit(#[trigger] front[i]) by {
                assert(front[i] == s[i]);
            }
        }
        lemma_digits_value_grows(front, front.len() as int);
        assert(front.take(front.len() as int) =~= front);
        if k == s.len() {
            assert(s.take(k) =~= s);
        } else {
            lemma_digits_value_grows(front, k);
            assert(front.take(k) =~= s.take(k));
        }
    }
}

/// Reads a base-10 integer literal: an optional `+` or `-`, then one or
/// more decimal digits, denoting a number that fits in 64 bits.
pub fn parse_int(s: &str) -> (r: Option<i64>)
    ensures
        r == literal(s@),
{
    let chars = chars_of(s);
    let n = chars.len();
    if n == 0 {
        return None;
    }
    let negative = chars[0] == '-';
    let start: usize = if chars[0] == '-' || chars[0] == '+' {
        1
    } else {
        0
    };
    let ghost body = literal_digits(s@);
    assert(body =~= chars@.subrange(start as int, n as int));
    if start == n {
        return None;
    }
    let mut acc: u64 = 0;
    let mut k: usize = start;
    assert(body.take(0) =~= Seq::<char>::empty());
    while k < n
        invariant
            start <= k <= n,
            n == chars@.len(),
            body == chars@.subrange(start as int, n as int),
            body == literal_digits(s@),
            all_digits(body.take(k - start)),
            acc == digits_value(body.take(k - start)),
            acc <= 0x8000_0000_0000_0000,
        decreases n - k,
    {
        let c = chars[k];
        let ghost seen = body.take(k - start);
        let ghost more = body.take(k - start + 1);
        assert(more.drop_last() =~= seen);
        assert(more.last() == c);
        if !(c >= '0' && c <= '9') {
            assert(!is_digit(body[k - start]));
            assert(!all_digits(body));
            return None;
        }
        let d: u8 = (c as u8) - 48;
        let next: u128 = (acc as u128) * 10 + (d as u128);
        assert(all_digits(more)) by {
            assert forall|i: int| 0 <= i < more.len() implies is_digit(#[trigger] more[i]) by {
                if i < seen.len() {
                    assert(more[i] == seen[i]);
                }
            }
        }
        if next > 0x8000_0000_0000_0000 {
            proof {
                if all_digits(body) {
                    lemma_digits_value_grows(body, k - start + 1);
                    assert(digits_value(body) > 0x8000_0000_0000_0000);
                }
            }
            return None;
        }
        acc = next as u64;
        k = k + 1;
    }
    assert(body.take(k - start) =~= body);
    if negative {
        Some((-(acc as i128)) as i64)
    } else if acc <= 0x7fff_ffff_ffff_ffff {
        Some(acc as i64)
    } else {
        None
    }
}

/// The character of a single decimal digit.
pub open spec fn digit_char(d: int) -> char {
    (48 + d) as u8 as char
}

/// The decimal digits of a natural number, most significant first.
pub open spec fn digits_of(n: nat) -> Seq<char>
    decreases n,
{
    if n < 10 {
        seq![digit_char(n as int)]
    } else {
        digits_of(n / 10).push(digit_char((n % 10) as int))
    }
}

/// The decimal form of an integer, with a leading `-` when it is negative.
pub open spec fn decimal(n: int) -> Seq<char> {
    if n < 0 {
        seq!['-'] + digits_of((-n) as nat)
    } else {
        digits_of(n as nat)
    }
}

/// Appends the decimal digits of `n` to `out`.
fn push_digits(n: u64, out: &mut Vec<char>)
    ensures
        final(out)@ == old(out)@ + digits_of(n as nat),
    decreases n,
{
    if n >= 10 {
        push_digits(n / 10, out);
    }
    let d: u8 = (n % 10) as u8;
    out.push((48 + d) as char);
    assert(out@ =~= old(out)@ + digits_of(n as nat));
}

/// The decimal form of an integer.
pub fn int_text(n: i64) -> (r: String)
    ensures
        r@ == decimal(n as int),
{
    let mut out: Vec<char> = Vec::new();
    if n < 0 {
        out.push('-');
        push_digits((-(n as i128)) as u64, &mut out);
    } else {
        push_digits(n as u64, &mut out);
    }
    assert(out@ =~= decimal(n as int));
    text_of(&out)
}

/// Lexicographic order on texts by code point, from position `i` on, given
/// that the two texts agree before `i`.
pub open spec fn text_lt_from(a: Seq<char>, b: Seq<char>, i: int) -> bool
    decreases a.len() - i,
{
    if i < 0 || i >= b.len() {
        false
    } else if i >= a.len() {
        true
    } else if a[i] != b[i] {
        (a[i] as int) < (b[i] as int)
    } else {
        text_lt_from(a, b, i + 1)
    }
}

/// Whether `a` comes before `b` in the lexicographic order by code point.
pub fn text_less(a: &str, b: &str) -> (r: bool)
    ensures
        r == text_lt_from(a@, b@, 0),
{
    let x = chars_of(a);
    let y = chars_of(b);
    let mut k: usize = 0;
    while k < x.len() && k < y.len()
        invariant
            k <= x@.len(),
            k <= y@.len(),
            x@ == a@,
            y@ == b@,
            text_lt_from(a@, b@, 0) == text_lt_from(a@, b@, k as int),
        decreases x@.len() - k,
    {
        if x[k] != y[k] {
            return x[k] < y[k];
        }
        k = k + 1;
    }
    k < y.len()
}

/// The decimal form of a count.
pub fn count_text(n: usize) -> (r: String)
    ensures
        r@ == decimal(n as int),
{
    let mut out: Vec<char> = Vec::new();
    push_digits(n as u64, &mut out);
    assert(out@ =~= decimal(n as int));
    text_of(&out)
}

/// Whether a token ends in the character `c`.
pub open spec fn ends_with(token: Seq<char>, c: char) -> bool {
    token.len() > 0 && token.last() == c
}

/// Whether `token` ends in the character `c`.
pub fn ends_in(token: &str, c: char) -> (r: bool)
    ensures
        r == ends_with(token@, c),
{
    let n = token.unicode_len();
    n > 0 && token.get_char(n - 1) == c
}

/// The characters of a text, one by one.
pub fn chars_of(s: &str) -> (r: Vec<char>)
    ensures
        r@ == s@,
{
    let mut out: Vec<char> = Vec::new();
    for c in it: s.chars()
        invariant
            it.seq() == s@,
            out@ == it.seq().take(it.index() as int),
    {
        out.push(c);
        assert(out@ =~= it.seq().take(it.index() + 1));
    }
    assert(out@ =~= s@);
    out
}

/// The text made of the given characters. Collects them with
/// `String::from_iter`, which appends them in order.
#[verifier::external_body]
pub(crate) fn text_of(chars: &Vec<char>) -> (r: String)
    ensures
        r@ == chars@,
{
    chars.iter().collect()
}

/// The texts of a sequence of strings.
pub open spec fn texts(items: Seq<String>) -> Seq<Seq<char>> {
    items.map_values(|s: String| s@)
}

/// The characters that separate tokens: blank, tab, line feed, form feed
/// and carriage return.
pub open spec fn is_blank(c: char) -> bool {
    c == ' ' || c == '\t' || c == '\n' || c == '\x0c' || c == '\r'
}

/// Where the run of non-blank characters that begins at `i` ends.
pub open spec fn word_end(s: Seq<char>, i: int) -> int
    decreases s.len() - i,
{
    if i < 0 || i >= s.len() || is_blank(s[i]) {
        i
    } else {
        word_end(s, i + 1)
    }
}

/// The tokens of a text from position `i` on: its maximal runs of non-blank
/// characters, in order.
pub open spec fn words_from(s: Seq<char>, i: int) -> Seq<Seq<char>>
    decreases s.len() - i,
{
    if i < 0 || i >= s.len() {
        Seq::empty()
    } else if is_blank(s[i]) {
        words_from(s, i + 1)
    } else if i < word_end(s, i) <= s.len() {
        seq![s.subrange(i, word_end(s, i))] + words_from(s, word_end(s, i))
    } else {
        Seq::empty()
    }
}

/// The tokens of a text.
pub open spec fn words(s: Seq<char>) -> Seq<Seq<char>> {
    words_from(s, 0)
}

/// Whether `c` separates tokens.
pub fn blank(c: char) -> (r: bool)
    ensures
        r == is_blank(c),
{
    c == ' ' || c == '\t' || c == '\n' || c == '\x0c' || c == '\r'
}

/// Splits a text into its tokens.
pub fn tokenize(input: &str) -> (r: Vec<String>)
    ensures
        texts(r@) == words(input@),
{
    let chars = chars_of(input);
    let n = chars.len();
    let mut out: Vec<String> = Vec::new();
    let mut i: usize = 0;
    assert(texts(out@) =~= Seq::empty());
    while i < n
        invariant
            i <= n,
            n == chars@.len(),
            chars@ == input@,
            texts(out@) + words_from(chars@, i as int) == words_from(chars@, 0),
        decreases n - i,
    {
        if blank(chars[i]) {
            i = i + 1;
        } else {
            let ghost start = i as int;
            let ghost done = texts(out@);
            let mut token: Vec<char> = Vec::new();
            assert(token@ =~= chars@.subrange(start, i as int));
            while i < n && !blank(chars[i])
                invariant
                    0 <= start <= i <= n,
                    n == chars@.len(),
                    word_end(chars@, i as int) == word_end(chars@, start),
                    token@ == chars@.subrange(start, i as int),
                decreases n - i,
            {
                token.push(chars[i]);
                i = i + 1;
                assert(token@ =~= chars@.subrange(start, i as int));
            }
            let word = text_of(&token);
            out.push(word);
            assert(texts(out@) =~= done.push(word@));
            assert(done.push(word@) + words_from(chars@, i as int) =~= done + (seq![word@]
                + words_from(chars@, i as int)));
        }
    }
    assert(texts(out@) + words_from(chars@, i as int) =~= texts(out@));
    out
}

} // verus!
