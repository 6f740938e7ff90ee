//! Character classes, trimming and decimal numerals on character sequences.
use vstd::prelude::*;

verus! {

/// Unicode `White_Space`: the class that `\s` matches and that `str::trim` strips.
pub open spec fn is_ws(c: char) -> bool {
    let u = c as u32;
    (0x09 <= u && u <= 0x0d) || u == 0x20 || u == 0x85 || u == 0xa0 || u == 0x1680 || (0x2000
        <= u && u <= 0x200a) || u == 0x2028 || u == 0x2029 || u == 0x202f || u == 0x205f || u
        == 0x3000
}

/// The ASCII decimal digits: the only ones that `usize`'s parser reads.
pub open spec fn is_digit(c: char) -> bool {
    '0' <= c && c <= '9'
}

/// The decimal digits of Unicode 15 (general category `Nd`): what `\d` matches.
pub open spec fn is_dec_digit(c: char) -> bool {
    let u = c as u32;
    (0x30 <= u && u <= 0x39)
        || (0x660 <= u && u <= 0x669)
        || (0x6f0 <= u && u <= 0x6f9)
        || (0x7c0 <= u && u <= 0x7c9)
        || (0x966 <= u && u <= 0x96f)
        || (0x9e6 <= u && u <= 0x9ef)
        || (0xa66 <= u && u <= 0xa6f)
        || (0xae6 <= u && u <= 0xaef)
        || (0xb66 <= u && u <= 0xb6f)
        || (0xbe6 <= u && u <= 0xbef)
        || (0xc66 <= u && u <= 0xc6f)
        || (0xce6 <= u && u <= 0xcef)
        || (0xd66 <= u && u <= 0xd6f)
        || (0xde6 <= u && u <= 0xdef)
        || (0xe50 <= u && u <= 0xe59)
        || (0xed0 <= u && u <= 0xed9)
        || (0xf20 <= u && u <= 0xf29)
        || (0x1040 <= u && u <= 0x1049)
        || (0x1090 <= u && u <= 0x1099)
        || (0x17e0 <= u && u <= 0x17e9)
        || (0x1810 <= u && u <= 0x1819)
        || (0x1946 <= u && u <= 0x194f)
        || (0x19d0 <= u && u <= 0x19d9)
        || (0x1a80 <= u && u <= 0x1a89)
        || (0x1a90 <= u && u <= 0x1a99)
        || (0x1b50 <= u && u <= 0x1b59)
        || (0x1bb0 <= u && u <= 0x1bb9)
        || (0x1c40 <= u && u <= 0x1c49)
        || (0x1c50 <= u && u <= 0x1c59)
        || (0xa620 <= u && u <= 0xa629)
        || (0xa8d0 <= u && u <= 0xa8d9)
        || (0xa900 <= u && u <= 0xa909)
        || (0xa9d0 <= u && u <= 0xa9d9)
        || (0xa9f0 <= u && u <= 0xa9f9)
        || (0xaa50 <= u && u <= 0xaa59)
        || (0xabf0 <= u && u <= 0xabf9)
        || (0xff10 <= u && u <= 0xff19)
        || (0x104a0 <= u && u <= 0x104a9)
        || (0x10d30 <= u && u <= 0x10d39)
        || (0x11066 <= u && u <= 0x1106f)
        || (0x110f0 <= u && u <= 0x110f9)
        || (0x11136 <= u && u <= 0x1113f)
        || (0x111d0 <= u && u <= 0x111d9)
        || (0x112f0 <= u && u <= 0x112f9)
        || (0x11450 <= u && u <= 0x11459)
        || (0x114d0 <= u && u <= 0x114d9)
        || (0x11650 <= u && u <= 0x11659)
        || (0x116c0 <= u && u <= 0x116c9)
        || (0x11730 <= u && u <= 0x11739)
        || (0x118e0 <= u && u <= 0x118e9)
        || (0x11950 <= u && u <= 0x11959)
        || (0x11c50 <= u && u <= 0x11c59)
        || (0x11d50 <= u && u <= 0x11d59)
        || (0x11da0 <= u && u <= 0x11da9)
        || (0x11f50 <= u && u <= 0x11f59)
        || (0x16a60 <= u && u <= 0x16a69)
        || (0x16ac0 <= u && u <= 0x16ac9)
        || (0x16b50 <= u && u <= 0x16b59)
        || (0x1d7ce <= u && u <= 0x1d7ff)
        || (0x1e140 <= u && u <= 0x1e149)
        || (0x1e2f0 <= u && u <= 0x1e2f9)
        || (0x1e4f0 <= u && u <= 0x1e4f9)
        || (0x1e950 <= u && u <= 0x1e959)
        || (0x1fbf0 <= u && u <= 0x1fbf9)
}

pub open spec fn all_dec_digits(s: Seq<char>) -> bool {
    forall|i: int| 0 <= i < s.len() ==> is_dec_digit(#[trigger] s[i])
}

pub open spec fn all_digits(s: Seq<char>) -> bool {
    forall|i: int| 0 <= i < s.len() ==> is_digit(#[trigger] s[i])
}

pub open spec fn no_newline(s: Seq<char>) -> bool {
    forall|i: int| 0 <= i < s.len() ==> #[trigger] s[i] != '\n'
}

/// The first position at or after `i` that does not hold whitespace.
pub open spec fn ws_end(s: Seq<char>, i: int) -> int
    decreases s.len() - i,
{
    if 0 <= i < s.len() && is_ws(s[i]) {
        ws_end(s, i + 1)
    } else {
        i
    }
}

/// The first position at or after `i` that does not hold a decimal digit.
pub open spec fn digit_end(s: Seq<char>, i: int) -> int
    decreases s.len() - i,
{
    if 0 <= i < s.len() && is_dec_digit(s[i]) {
        digit_end(s, i + 1)
    } else {
        i
    }
}

/// The end of `s[..j]` once trailing whitespace is dropped.
pub open spec fn ws_back(s: Seq<char>, j: int) -> int
    decreases j,
{
    if 0 < j <= s.len() && is_ws(s[j - 1]) {
        ws_back(s, j - 1)
    } else {
        j
    }
}

/// `s` without leading and trailing whitespace.
pub open spec fn trim(s: Seq<char>) -> Seq<char> {
    let a = ws_end(s, 0);
    if a >= s.len() {
        Seq::empty()
    } else {
        s.subrange(a, ws_back(s, s.len() as int))
    }
}

pub open spec fn digit_value(c: char) -> nat {
    (c as u32 - '0' as u32) as nat
}

/// The number that a run of decimal digits denotes.
pub open spec fn digits_value(s: Seq<char>) -> nat
    decreases s.len(),
{
    if s.len() == 0 {
        0
    } else {
        digits_value(s.drop_last()) * 10 + digit_value(s.last())
    }
}

pub open spec fn digit_char(d: nat) -> char {
    if d == 0 {
        '0'
    } else if d == 1 {
        '1'
    } else if d == 2 {
        '2'
    } else if d == 3 {
        '3'
    } else if d == 4 {
        '4'
    } else if d == 5 {
        '5'
    } else if d == 6 {
        '6'
    } else if d == 7 {
        '7'
    } else if d == 8 {
        '8'
    } else {
        '9'
    }
}

/// The decimal numeral of `n`, without leading zeros.
pub open spec fn decimal(n: nat) -> Seq<char>
    decreases n,
{
    if n < 10 {
        seq![digit_char(n)]
    } else {
        decimal(n / 10).push(digit_char(n % 10))
    }
}

pub proof fn lemma_ws_end_bounds(s: Seq<char>, i: int)
    requires
        0 <= i <= s.len(),
    ensures
        i <= ws_end(s, i) <= s.len(),
        ws_end(s, i) < s.len() ==> !is_ws(s[ws_end(s, i)]),
        forall|k: int| i <= k < ws_end(s, i) ==> is_ws(#[trigger] s[k]),
    decreases s.len() - i,
{
    if i < s.len() && is_ws(s[i]) {
        lemma_ws_end_bounds(s, i + 1);
    }
}

pub proof fn lemma_digit_end_bounds(s: Seq<char>, i: int)
    requires
        0 <= i <= s.len(),
    ensures
        i <= digit_end(s, i) <= s.len(),
        digit_end(s, i) < s.len() ==> !is_dec_digit(s[digit_end(s, i)]),
        forall|k: int| i <= k < digit_end(s, i) ==> is_dec_digit(#[trigger] s[k]),
    decreases s.len() - i,
{
    if i < s.len() && is_dec_digit(s[i]) {
        lemma_digit_end_bounds(s, i + 1);
    }
}

pub proof fn lemma_ws_back_bounds(s: Seq<char>, j: int)
    requires
        0 <= j <= s.len(),
    ensures
        0 <= ws_back(s, j) <= j,
        ws_back(s, j) > 0 ==> !is_ws(s[ws_back(s, j) - 1]),
        forall|k: int| ws_back(s, j) <= k < j ==> is_ws(#[trigger] s[k]),
    decreases j,
{
    if 0 < j && is_ws(s[j - 1]) {
        lemma_ws_back_bounds(s, j - 1);
    }
}

pub fn is_whitespace(c: char) -> (r: bool)
    ensures
        r == is_ws(c),
{
    let u = c as u32;
    (0x09 <= u && u <= 0x0d) || u == 0x20 || u == 0x85 || u == 0xa0 || u == 0x1680 || (0x2000
        <= u && u <= 0x200a) || u == 0x2028 || u == 0x2029 || u == 0x202f || u == 0x205f || u
        == 0x3000
}

pub fn skip_whitespace(s: &str, i: usize) -> (r: usize)
    requires
        i <= s@.len(),
    ensures
        r == ws_end(s@, i as int),
{
    let n = s.unicode_len();
    let mut j: usize = i;
    while j < n && is_whitespace(s.get_char(j))
        invariant
            n == s@.len(),
            i <= j <= n,
            ws_end(s@, j as int) == ws_end(s@, i as int),
        decreases n - j,
    {
        j = j + 1;
    }
    j
}

pub fn skip_digits(s: &str, i: usize) -> (r: usize)
    requires
        i <= s@.len(),
    ensures
        r == digit_end(s@, i as int),
{
    let n = s.unicode_len();
    let mut j: usize = i;
    while j < n && is_decimal_digit(s.get_char(j))
        invariant
            n == s@.len(),
            i <= j <= n,
            digit_end(s@, j as int) == digit_end(s@, i as int),
        decreases n - j,
    {
        j = j + 1;
    }
    j
}

pub fn is_decimal_digit(c: char) -> (r: bool)
    ensures
        r == is_dec_digit(c),
{
    let u = c as u32;
    (0x30 <= u && u <= 0x39)
        || (0x660 <= u && u <= 0x669)
        || (0x6f0 <= u && u <= 0x6f9)
        || (0x7c0 <= u && u <= 0x7c9)
        || (0x966 <= u && u <= 0x96f)
        || (0x9e6 <= u && u <= 0x9ef)
        || (0xa66 <= u && u <= 0xa6f)
        || (0xae6 <= u && u <= 0xaef)
        || (0xb66 <= u && u <= 0xb6f)
        || (0xbe6 <= u && u <= 0xbef)
        || (0xc66 <= u && u <= 0xc6f)
        || (0xce6 <= u && u <= 0xcef)
        || (0xd66 <= u && u <= 0xd6f)
        || (0xde6 <= u && u <= 0xdef)
        || (0xe50 <= u && u <= 0xe59)
        || (0xed0 <= u && u <= 0xed9)
        || (0xf20 <= u && u <= 0xf29)
        || (0x1040 <= u && u <= 0x1049)
        || (0x1090 <= u && u <= 0x1099)
        || (0x17e0 <= u && u <= 0x17e9)
        || (0x1810 <= u && u <= 0x1819)
        || (0x1946 <= u && u <= 0x194f)
        || (0x19d0 <= u && u <= 0x19d9)
        || (0x1a80 <= u && u <= 0x1a89)
        || (0x1a90 <= u && u <= 0x1a99)
        || (0x1b50 <= u && u <= 0x1b59)
        || (0x1bb0 <= u && u <= 0x1bb9)
        || (0x1c40 <= u && u <= 0x1c49)
        || (0x1c50 <= u && u <= 0x1c59)
        || (0xa620 <= u && u <= 0xa629)
        || (0xa8d0 <= u && u <= 0xa8d9)
        || (0xa900 <= u && u <= 0xa909)
        || (0xa9d0 <= u && u <= 0xa9d9)
        || (0xa9f0 <= u && u <= 0xa9f9)
        || (0xaa50 <= u && u <= 0xaa59)
        || (0xabf0 <= u && u <= 0xabf9)
        || (0xff10 <= u && u <= 0xff19)
        || (0x104a0 <= u && u <= 0x104a9)
        || (0x10d30 <= u && u <= 0x10d39)
        || (0x11066 <= u && u <= 0x1106f)
        || (0x110f0 <= u && u <= 0x110f9)
        || (0x11136 <= u && u <= 0x1113f)
        || (0x111d0 <= u && u <= 0x111d9)
        || (0x112f0 <= u && u <= 0x112f9)
        || (0x11450 <= u && u <= 0x11459)
        || (0x114d0 <= u && u <= 0x114d9)
        || (0x11650 <= u && u <= 0x11659)
        || (0x116c0 <= u && u <= 0x116c9)
        || (0x11730 <= u && u <= 0x11739)
        || (0x118e0 <= u && u <= 0x118e9)
        || (0x11950 <= u && u <= 0x11959)
        || (0x11c50 <= u && u <= 0x11c59)
        || (0x11d50 <= u && u <= 0x11d59)
        || (0x11da0 <= u && u <= 0x11da9)
        || (0x11f50 <= u && u <= 0x11f59)
        || (0x16a60 <= u && u <= 0x16a69)
        || (0x16ac0 <= u && u <= 0x16ac9)
        || (0x16b50 <= u && u <= 0x16b59)
        || (0x1d7ce <= u && u <= 0x1d7ff)
        || (0x1e140 <= u && u <= 0x1e149)
        || (0x1e2f0 <= u && u <= 0x1e2f9)
        || (0x1e4f0 <= u && u <= 0x1e4f9)
        || (0x1e950 <= u && u <= 0x1e959)
        || (0x1fbf0 <= u && u <= 0x1fbf9)
}

pub fn is_ascii_digit(c: char) -> (r: bool)
    ensures
        r == is_digit(c),
{
    '0' <= c && c <= '9'
}

fn trailing_whitespace_start(s: &str) -> (r: usize)
    ensures
        r == ws_back(s@, s@.len() as int),
{
    let n = s.unicode_len();
    let mut j: usize = n;
    while j > 0 && is_whitespace(s.get_char(j - 1))
        invariant
            n == s@.len(),
            j <= n,
            ws_back(s@, j as int) == ws_back(s@, n as int),
        decreases j,
    {
        j = j - 1;
    }
    j
}

/// `s` without leading and trailing whitespace.
pub fn trim_text(s: &str) -> (r: &str)
    ensures
        r@ == trim(s@),
{
    let n = s.unicode_len();
    let a = skip_whitespace(s, 0);
    proof {
        lemma_ws_end_bounds(s@, 0);
    }
    if a >= n {
        let e = s.substring_char(n, n);
        assert(e@ =~= Seq::<char>::empty());
        e
    } else {
        let b = trailing_whitespace_start(s);
        proof {
            lemma_ws_back_bounds(s@, n as int);
            if b <= a {
                assert(is_ws(s@[a as int]));
            }
        }
        s.substring_char(a, b)
    }
}

/// Whether every character of `s` from position `i` on is an ASCII digit.
pub fn digits_from(s: &str, i: usize) -> (r: bool)
    requires
        i <= s@.len(),
    ensures
        r == all_digits(s@.subrange(i as int, s@.len() as int)),
{
    let n = s.unicode_len();
    let ghost t = s@.subrange(i as int, n as int);
    let mut j: usize = i;
    while j < n
        invariant
            n == s@.len(),
            i <= j <= n,
            t == s@.subrange(i as int, n as int),
            forall|k: int| 0 <= k < j - i ==> is_digit(#[trigger] t[k]),
        decreases n - j,
    {
        if !is_ascii_digit(s.get_char(j)) {
            assert(!is_digit(t[j - i]));
            return false;
        }
        j = j + 1;
    }
    true
}

/// Whether every character of `s` from position `i` on is a decimal digit.
pub fn dec_digits_from(s: &str, i: usize) -> (r: bool)
    requires
        i <= s@.len(),
    ensures
        r == all_dec_digits(s@.subrange(i as int, s@.len() as int)),
{
    let n = s.unicode_len();
    let j = skip_digits(s, i);
    proof {
        lemma_digit_end_bounds(s@, i as int);
        let t = s@.subrange(i as int, s@.len() as int);
        if j < n {
            assert(!is_dec_digit(t[j - i]));
        } else {
            assert forall|k: int| 0 <= k < t.len() implies is_dec_digit(#[trigger] t[k]) by {
                assert(is_dec_digit(s@[i + k]));
            }
        }
    }
    j == n
}

/// Whether no character of `s[from..to]` is a line feed.
pub fn lacks_newline(s: &str, from: usize, to: usize) -> (r: bool)
    requires
        from <= to <= s@.len(),
    ensures
        r == no_newline(s@.subrange(from as int, to as int)),
{
    let mut j: usize = from;
    while j < to
        invariant
            from <= j <= to <= s@.len(),
            forall|k: int| from <= k < j ==> #[trigger] s@[k] != '\n',
        decreases to - j,
    {
        if s.get_char(j) == '\n' {
            proof {
                let t = s@.subrange(from as int, to as int);
                assert(t[j - from] == '\n');
            }
            return false;
        }
        j = j + 1;
    }
    proof {
        let t = s@.subrange(from as int, to as int);
        assert forall|k: int| 0 <= k < t.len() implies #[trigger] t[k] != '\n' by {
            assert(s@[from + k] != '\n');
        }
    }
    true
}

pub proof fn lemma_digits_value_grows(s: Seq<char>, i: int, j: int)
    requires
        0 <= i <= j <= s.len(),
    ensures
        digits_value(s.subrange(0, i)) <= digits_value(s.subrange(0, j)),
    decreases j - i,
{
    if i < j {
        lemma_digits_value_grows(s, i, j - 1);
        assert(s.subrange(0, j).drop_last() =~= s.subrange(0, j - 1));
    }
}

/// The value of the digits `s[from..]`, or `None` where it exceeds `usize::MAX`.
pub fn parse_index(s: &str, from: usize) -> (r: Option<usize>)
    requires
        from <= s@.len(),
        all_digits(s@.subrange(from as int, s@.len() as int)),
    ensures
        ({
            let v = digits_value(s@.subrange(from as int, s@.len() as int));
            match r {
                Some(k) => k as nat == v,
                None => v > usize::MAX,
            }
        }),
{
    let n = s.unicode_len();
    let ghost t = s@.subrange(from as int, n as int);
    let mut acc: usize = 0;
    let mut j: usize = from;
    assert(t.subrange(0, 0) =~= Seq::<char>::empty());
    while j < n
        invariant
            n == s@.len(),
            from <= j <= n,
            t == s@.subrange(from as int, n as int),
            all_digits(t),
            acc as nat == digits_value(t.subrange(0, j - from)),
        decreases n - j,
    {
        let c = s.get_char(j);
        assert(c == t[j - from]);
        let d = (c as u32 - '0' as u32) as usize;
        assert(t.subrange(0, j + 1 - from).drop_last() =~= t.subrange(0, j - from));
        if acc > (usize::MAX - d) / 10 {
            proof {
                assert(acc * 10 + d > usize::MAX) by (nonlinear_arith)
                    requires
                        acc > (usize::MAX - d) / 10,
                        d <= 9,
                ;
                lemma_digits_value_grows(t, j + 1 - from, t.len() as int);
                assert(t.subrange(0, t.len() as int) =~= t);
            }
            return None;
        }
        proof {
            assert(acc * 10 + d <= usize::MAX) by (nonlinear_arith)
                requires
                    acc <= (usize::MAX - d) / 10,
                    d <= 9,
            ;
        }
        acc = acc * 10 + d;
        j = j + 1;
    }
    assert(t.subrange(0, n - from) =~= t);
    Some(acc)
}

fn digit_text(d: u64) -> (r: &'static str)
    requires
        d < 10,
    ensures
        r@ == seq![digit_char(d as nat)],
{
    proof {
        reveal_strlit("0");
        reveal_strlit("1");
        reveal_strlit("2");
        reveal_strlit("3");
        reveal_strlit("4");
        reveal_strlit("5");
        reveal_strlit("6");
        reveal_strlit("7");
        reveal_strlit("8");
        reveal_strlit("9");
    }
    let r = if d == 0 {
        "0"
    } else if d == 1 {
        "1"
    } else if d == 2 {
        "2"
    } else if d == 3 {
        "3"
    } else if d == 4 {
        "4"
    } else if d == 5 {
        "5"
    } else if d == 6 {
        "6"
    } else if d == 7 {
        "7"
    } else if d == 8 {
        "8"
    } else {
        "9"
    };
    assert(r@ =~= seq![digit_char(d as nat)]);
    r
}

/// The decimal numeral of `n`.
pub fn decimal_text(n: u64) -> (r: String)
    ensures
        r@ == decimal(n as nat),
    decreases n,
{
    if n < 10 {
        String::from_str(digit_text(n))
    } else {
        let mut s = decimal_text(n / 10);
        s.append(digit_text(n % 10));
        assert(s@ =~= decimal(n as nat));
        s
    }
}

} // verus!
