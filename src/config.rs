use vstd::prelude::*;

verus! {

/// Threshold used when the requested number of lines per file is missing or invalid.
pub const DEFAULT_LINES_PER_FILE: usize = 100_000;

/// The value of a decimal digit character.
pub open spec fn digit_value(c: char) -> int {
    c as int - '0' as int
}

pub open spec fn is_digit(c: char) -> bool {
    '0' <= c && c <= '9'
}

/// The value of a sequence of decimal digits, most significant first.
pub open spec fn digits_value(s: Seq<char>) -> int
    decreases s.len(),
{
    if s.len() == 0 {
        0
    } else {
        10 * digits_value(s.drop_last()) + digit_value(s.last())
    }
}

/// The digits of an unsigned decimal literal: an optional leading `+`
/// followed by the rest of the text.
pub open spec fn unsigned_body(s: Seq<char>) -> Seq<char> {
    if s.len() > 0 && s[0] == '+' {
        s.drop_first()
    } else {
        s
    }
}

/// The text reads as an unsigned decimal integer that fits in `usize`.
pub open spec fn parses_as_usize(s: Seq<char>) -> bool {
    let d = unsigned_body(s);
    &&& d.len() > 0
    &&& forall|i: int| 0 <= i < d.len() ==> is_digit(#[trigger] d[i])
    &&& digits_value(d) <= usize::MAX
}

/// The number of lines per file that the text asks for: its value when it is a
/// positive integer that fits in `usize`, the default otherwise.
pub open spec fn threshold_of(s: Seq<char>) -> nat {
    if parses_as_usize(s) && digits_value(unsigned_body(s)) >= 1 {
        digits_value(unsigned_body(s)) as nat
    } else {
        DEFAULT_LINES_PER_FILE as nat
    }
}

/// The value of an all-digit sequence is never below the value of one of its prefixes.
pub proof fn lemma_digits_value_prefix(s: Seq<char>, k: int)
    requires
        0 <= k <= s.len(),
        forall|i: int| 0 <= i < s.len() ==> is_digit(#[trigger] s[i]),
    ensures
        0 <= digits_value(s.take(k)) <= digits_value(s),
    decreases s.len(),
{
    if s.len() > 0 {
        let t = s.drop_last();
        assert forall|i: int| 0 <= i < t.len() implies is_digit(#[trigger] t[i]) by {
            assert(t[i] == s[i]);
        }
        if k == s.len() {
            assert(s.take(k) =~= s);
            lemma_digits_value_prefix(t, t.len() as int);
            assert(t.take(t.len() as int) =~= t);
        } else {
            lemma_digits_value_prefix(t, k);
            assert(t.take(k) =~= s.take(k));
            lemma_digits_value_prefix(t, t.len() as int);
            assert(t.take(t.len() as int) =~= t);
        }
        assert(is_digit(s[s.len() - 1]));
    } else {
        assert(s.take(k) =~= s);
    }
}

/// Reads the number of lines per file from user text, falling back to
/// `DEFAULT_LINES_PER_FILE` when the text is not a positive integer that fits
/// in `usize`.
pub fn parse_lines_per_file(text: &str) -> (r: usize)
    ensures
        r as nat == threshold_of(text@),
        r >= 1,
{
    let n = text.unicode_len();
    let ghost s = text@;
    let ghost body = unsigned_body(s);
    let mut start: usize = 0;
    if n > 0 && text.get_char(0) == '+' {
        start = 1;
    }
    assert(body =~= s.subrange(start as int, n as int));
    if start == n {
        return DEFAULT_LINES_PER_FILE;
    }
    let mut value: usize = 0;
    let mut i: usize = start;
    while i < n
        invariant
            start <= i <= n,
            n == s.len(),
            s == text@,
            body == s.subrange(start as int, n as int),
            body == unsigned_body(s),
            value as int == digits_value(s.subrange(start as int, i as int)),
            forall|k: int| start <= k < i ==> is_digit(#[trigger] s[k]),
        decreases n - i,
    {
        let c = text.get_char(i);
        if !('0' <= c && c <= '9') {
            assert(body[i - start] == c);
            assert(!is_digit(body[i - start]));
            assert(!parses_as_usize(s));
            return DEFAULT_LINES_PER_FILE;
        }
        let d: usize = (c as u32 - '0' as u32) as usize;
        let ghost prefix = s.subrange(start as int, i as int + 1);
        assert(prefix.drop_last() =~= s.subrange(start as int, i as int));
        assert(digits_value(prefix) == 10 * value + d);
        if value > (usize::MAX - d) / 10 {
            assert(digits_value(prefix) > usize::MAX) by (nonlinear_arith)
                requires
                    value > (usize::MAX - d) / 10,
                    digits_value(prefix) == 10 * value + d,
                    d <= 9,
            ;
            let ghost m = (i + 1 - start) as int;
            assert(body.take(m) =~= prefix);
            proof {
                if forall|k: int| 0 <= k < body.len() ==> is_digit(#[trigger] body[k]) {
                    lemma_digits_value_prefix(body, m);
                }
            }
            assert(!parses_as_usize(s));
            return DEFAULT_LINES_PER_FILE;
        }
        value = value * 10 + d;
        i = i + 1;
    }
    assert(s.subrange(start as int, n as int) =~= body);
    assert forall|k: int| 0 <= k < body.len() implies is_digit(#[trigger] body[k]) by {
        assert(body[k] == s[k + start]);
    }
    if value == 0 {
        DEFAULT_LINES_PER_FILE
    } else {
        value
    }
}

} // verus!
