//! Small text helpers: decimal rendering and file-name clean-up.
use vstd::prelude::*;
use vstd::std_specs::iter::IteratorSpec;

verus! {

/// The ASCII digit that stands for `d`, for `d < 10`.
pub open spec fn digit(d: nat) -> char {
    seq!['0', '1', '2', '3', '4', '5', '6', '7', '8', '9'][d as int]
}

/// The decimal rendering of `n`, most significant digit first, no leading zeros.
pub open spec fn decimal(n: nat) -> Seq<char>
    decreases n,
{
    if n < 10 {
        seq![digit(n)]
    } else {
        decimal(n / 10).push(digit(n % 10))
    }
}

/// `s` with every `/` and `\` removed.
pub open spec fn without_separators(s: Seq<char>) -> Seq<char> {
    s.filter(|c: char| c != '/' && c != '\\')
}

/// What `str::trim` leaves of a text: the text without its leading and
/// trailing white space.
pub uninterp spec fn trimmed(s: Seq<char>) -> Seq<char>;

/// Relies on `String::push`: the character is appended at the end.
#[verifier::external_body]
pub(crate) fn push_char(s: &mut String, c: char)
    ensures
        final(s)@ == old(s)@.push(c),
{
    s.push(c)
}

/// Relies on `str::trim`, which depends on the characters alone.
#[verifier::external_body]
fn trim_str(s: &str) -> (r: &str)
    ensures
        r@ == trimmed(s@),
{
    s.trim()
}

fn digit_of(d: u64) -> (c: char)
    requires
        d < 10,
    ensures
        c == digit(d as nat),
{
    match d {
        0 => '0',
        1 => '1',
        2 => '2',
        3 => '3',
        4 => '4',
        5 => '5',
        6 => '6',
        7 => '7',
        8 => '8',
        _ => '9',
    }
}

/// Appends the decimal rendering of `n` to `s`.
pub fn push_decimal(s: &mut String, n: u64)
    ensures
        final(s)@ == old(s)@ + decimal(n as nat),
    decreases n,
{
    if n >= 10 {
        push_decimal(s, n / 10);
    }
    push_char(s, digit_of(n % 10));
    proof {
        if n >= 10 {
            assert(old(s)@ + decimal(n as nat) =~= old(s)@ + decimal((n / 10) as nat) + seq![
                digit((n % 10) as nat),
            ]);
        } else {
            assert(old(s)@ + decimal(n as nat) =~= old(s)@.push(digit(n as nat)));
        }
    }
}

/// The decimal rendering of `n` as a new string.
pub fn to_decimal(n: u64) -> (r: String)
    ensures
        r@ == decimal(n as nat),
{
    let mut s = String::new();
    push_decimal(&mut s, n);
    proof {
        assert(Seq::<char>::empty() + decimal(n as nat) =~= decimal(n as nat));
    }
    s
}

/// Copies `s` without its `/` and `\` characters, so that it can stand as
/// one component of a path.
pub fn strip_separators(s: &str) -> (r: String)
    ensures
        r@ == without_separators(s@),
{
    let mut out = String::new();
    let mut it = s.chars();
    let ghost mut k: int = 0;
    loop
        invariant
            0 <= k <= s@.len(),
            it.remaining() == s@.subrange(k, s@.len() as int),
            out@ == without_separators(s@.subrange(0, k)),
        ensures
            out@ == without_separators(s@),
        decreases s@.len() - k,
    {
        match it.next() {
            Some(c) => {
                proof {
                    assert(s@.subrange(0, k + 1).drop_last() =~= s@.subrange(0, k));
                    assert(s@.subrange(0, k + 1).last() == c);
                    reveal(Seq::filter);
                }
                if c != '/' && c != '\\' {
                    push_char(&mut out, c);
                }
                proof {
                    k = k + 1;
                }
            },
            None => {
                proof {
                    assert(s@.subrange(k, s@.len() as int).len() == 0);
                    assert(s@.subrange(0, k) =~= s@);
                }
                break ;
            },
        }
    }
    out
}

/// Whether `c` is an ASCII decimal digit.
pub open spec fn is_digit(c: char) -> bool {
    '0' <= c && c <= '9'
}

/// The value of an ASCII digit.
pub open spec fn digit_value(c: char) -> nat {
    (c as u32 - '0' as u32) as nat
}

/// The value of a run of digits, most significant first.
pub open spec fn digits_value(s: Seq<char>) -> nat
    decreases s.len(),
{
    if s.len() == 0 {
        0
    } else {
        digits_value(s.drop_last()) * 10 + digit_value(s.last())
    }
}

/// The digits of a number written with an optional leading `+`.
pub open spec fn unsigned_body(s: Seq<char>) -> Seq<char> {
    if s.len() > 0 && s[0] == '+' {
        s.drop_first()
    } else {
        s
    }
}

/// Whether `s` is an unsigned 64-bit number: an optional `+`, then at
/// least one ASCII digit, with a value that fits.
pub open spec fn is_u64_text(s: Seq<char>) -> bool {
    let b = unsigned_body(s);
    &&& b.len() > 0
    &&& forall|i: int| 0 <= i < b.len() ==> is_digit(#[trigger] b[i])
    &&& digits_value(b) <= u64::MAX
}

proof fn lemma_prefix_value_le(b: Seq<char>, j: int)
    requires
        0 <= j <= b.len(),
    ensures
        digits_value(b.take(j)) <= digits_value(b),
    decreases b.len(),
{
    if j < b.len() {
        assert(b.drop_last().take(j) =~= b.take(j));
        lemma_prefix_value_le(b.drop_last(), j);
    } else {
        assert(b.take(j) =~= b);
    }
}

/// Copies the characters of `s` into a vector.
fn chars_of(s: &str) -> (v: Vec<char>)
    ensures
        v@ == s@,
{
    let mut out: Vec<char> = Vec::new();
    let mut it = s.chars();
    let ghost mut k: int = 0;
    loop
        invariant
            0 <= k <= s@.len(),
            it.remaining() == s@.subrange(k, s@.len() as int),
            out@ == s@.subrange(0, k),
        ensures
            out@ == s@,
        decreases s@.len() - k,
    {
        match it.next() {
            Some(c) => {
                out.push(c);
                proof {
                    assert(out@ =~= s@.subrange(0, k + 1));
                    k = k + 1;
                }
            },
            None => {
                proof {
                    assert(s@.subrange(k, s@.len() as int).len() == 0);
                    assert(out@ =~= s@);
                }
                break ;
            },
        }
    }
    out
}

/// Reads `s` as an unsigned 64-bit number, as `str::parse::<u64>` does:
/// an optional `+`, then decimal digits whose value fits.
pub fn parse_u64(s: &str) -> (r: Option<u64>)
    ensures
        r == (if is_u64_text(s@) {
            Some(digits_value(unsigned_body(s@)) as u64)
        } else {
            None
        }),
{
    let v = chars_of(s);
    let n = v.len();
    if n == 0 {
        return None;
    }
    let start: usize = if v[0] == '+' {
        1
    } else {
        0
    };
    let ghost b = unsigned_body(s@);
    assert(b =~= v@.subrange(start as int, n as int));
    if start == n {
        return None;
    }
    let mut value: u64 = 0;
    let mut k: usize = start;
    while k < n
        invariant
            v@ == s@,
            n == v@.len(),
            b == v@.subrange(start as int, n as int),
            b == unsigned_body(s@),
            start <= k <= n,
            value as nat == digits_value(b.take(k - start)),
            forall|j: int| 0 <= j < k - start ==> is_digit(#[trigger] b[j]),
        decreases n - k,
    {
        let c = v[k];
        assert(b[k - start] == c);
        if !('0' <= c && c <= '9') {
            assert(!is_digit(b[k - start]));
            assert(!is_u64_text(s@));
            return None;
        }
        let d = (c as u32 - '0' as u32) as u64;
        assert(d == digit_value(c));
        assert(b.take(k - start + 1).drop_last() =~= b.take(k - start));
        assert(b.take(k - start + 1).last() == c);
        assert(digits_value(b.take(k - start + 1)) == value * 10 + d);
        if value > (u64::MAX - d) / 10 {
            proof {
                assert(value * 10 + d > u64::MAX) by (nonlinear_arith)
                    requires
                        value > (u64::MAX - d) / 10,
                        d <= 9,
                ;
                lemma_prefix_value_le(b, k - start + 1);
                assert(!is_u64_text(s@));
            }
            return None;
        }
        assert(value * 10 + d <= u64::MAX) by (nonlinear_arith)
            requires
                value <= (u64::MAX - d) / 10,
                d <= 9,
        ;
        value = value * 10 + d;
        k = k + 1;
    }
    assert(b.take(n - start) =~= b);
    Some(value)
}

/// Turns a title into a file-name stem: surrounding white space is
/// trimmed and path separators are removed.
pub fn normalization_file_name(s: String) -> (r: String)
    ensures
        r@ == without_separators(trimmed(s@)),
{
    strip_separators(trim_str(s.as_str()))
}

} // verus!
