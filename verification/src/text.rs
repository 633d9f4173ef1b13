//! Character-sequence utilities: decimal numbers, Rust's textual integer and
//! boolean syntax, UTF-8 byte length, substring search and splitting.
use vstd::prelude::*;

verus! {

/// The decimal digit character for `d` in `0..10`.
pub open spec fn digit_char(d: int) -> char {
    (d + 48) as char
}

/// Decimal text of a natural number, without leading zeros.
pub open spec fn nat_text(n: nat) -> Seq<char>
    decreases n,
{
    if n < 10 {
        seq![digit_char(n as int)]
    } else {
        nat_text(n / 10).push(digit_char((n % 10) as int))
    }
}

/// Decimal text of an integer, with a leading `-` when it is negative.
pub open spec fn int_text(i: int) -> Seq<char> {
    if i < 0 {
        seq!['-'] + nat_text((-i) as nat)
    } else {
        nat_text(i as nat)
    }
}

pub open spec fn is_digit(c: char) -> bool {
    '0' <= c && c <= '9'
}

pub open spec fn all_digits(s: Seq<char>) -> bool {
    forall|i: int| 0 <= i < s.len() ==> is_digit(#[trigger] s[i])
}

/// The value of a string of decimal digits.
pub open spec fn digits_value(s: Seq<char>) -> nat
    decreases s.len(),
{
    if s.len() == 0 {
        0
    } else {
        digits_value(s.drop_last()) * 10 + ((s.last() as int - 48) as nat)
    }
}

/// The integer that `s` denotes in Rust's syntax for signed integers:
/// an optional `+` or `-`, then at least one decimal digit.
pub open spec fn signed_value(s: Seq<char>) -> Option<int> {
    if s.len() > 0 && (s[0] == '-' || s[0] == '+') {
        let rest = s.drop_first();
        if rest.len() > 0 && all_digits(rest) {
            if s[0] == '-' {
                Some(-(digits_value(rest) as int))
            } else {
                Some(digits_value(rest) as int)
            }
        } else {
            None
        }
    } else if s.len() > 0 && all_digits(s) {
        Some(digits_value(s) as int)
    } else {
        None
    }
}

/// The integer that `s` denotes in Rust's syntax for unsigned integers:
/// an optional `+`, then at least one decimal digit.
pub open spec fn unsigned_value(s: Seq<char>) -> Option<int> {
    if s.len() > 0 && s[0] == '-' {
        None
    } else {
        signed_value(s)
    }
}

/// What `str::parse::<i64>` gives on `s`.
pub open spec fn parse_i64_spec(s: Seq<char>) -> Option<i64> {
    match signed_value(s) {
        Some(v) => if i64::MIN <= v <= i64::MAX {
            Some(v as i64)
        } else {
            None
        },
        None => None,
    }
}

/// What `str::parse::<isize>` gives on `s`.
pub open spec fn parse_isize_spec(s: Seq<char>) -> Option<isize> {
    match signed_value(s) {
        Some(v) => if isize::MIN <= v <= isize::MAX {
            Some(v as isize)
        } else {
            None
        },
        None => None,
    }
}

/// What `str::parse::<usize>` gives on `s`.
pub open spec fn parse_usize_spec(s: Seq<char>) -> Option<usize> {
    match unsigned_value(s) {
        Some(v) => if v <= usize::MAX {
            Some(v as usize)
        } else {
            None
        },
        None => None,
    }
}

pub open spec fn text_true() -> Seq<char> {
    seq!['t', 'r', 'u', 'e']
}

pub open spec fn text_false() -> Seq<char> {
    seq!['f', 'a', 'l', 's', 'e']
}

/// What `str::parse::<bool>` gives on `s`.
pub open spec fn parse_bool_spec(s: Seq<char>) -> Option<bool> {
    if s == text_true() {
        Some(true)
    } else if s == text_false() {
        Some(false)
    } else {
        None
    }
}

pub open spec fn bool_text(b: bool) -> Seq<char> {
    if b {
        text_true()
    } else {
        text_false()
    }
}

/// Number of bytes of the UTF-8 encoding of `c`.
pub open spec fn char_utf8_len(c: char) -> nat {
    if (c as u32) < 0x80 {
        1
    } else if (c as u32) < 0x800 {
        2
    } else if (c as u32) < 0x10000 {
        3
    } else {
        4
    }
}

/// Number of bytes of the UTF-8 encoding of `s`.
pub open spec fn utf8_len(s: Seq<char>) -> nat
    decreases s.len(),
{
    if s.len() == 0 {
        0
    } else {
        utf8_len(s.drop_last()) + char_utf8_len(s.last())
    }
}

/// `d` occurs in `s` starting at index `i`.
pub open spec fn occurs_at(s: Seq<char>, d: Seq<char>, i: int) -> bool {
    0 <= i && i + d.len() <= s.len() && s.subrange(i, i + d.len()) == d
}

/// The first index `k >= i` at which `d` occurs in `s`, or `-1`.
pub open spec fn find_from(s: Seq<char>, d: Seq<char>, i: int) -> int
    decreases s.len() + 1 - i,
{
    if i < 0 || i + d.len() > s.len() {
        -1
    } else if occurs_at(s, d, i) {
        i
    } else {
        find_from(s, d, i + 1)
    }
}

/// The pieces of `s[i..]` between the non-overlapping occurrences of the
/// non-empty `d`, found from left to right.
pub open spec fn split_from(s: Seq<char>, d: Seq<char>, i: int) -> Seq<Seq<char>>
    decreases s.len() - i,
{
    let k = find_from(s, d, i);
    if d.len() == 0 || i < 0 || i > s.len() || k < i || k + d.len() > s.len() {
        seq![s.subrange(i, s.len() as int)]
    } else {
        seq![s.subrange(i, k)] + split_from(s, d, k + d.len())
    }
}

/// Each character of `s` as a one-character text.
pub open spec fn char_pieces(s: Seq<char>) -> Seq<Seq<char>> {
    s.map(|i: int, c: char| seq![c])
}

/// What `str::split` with a string pattern gives: the empty pattern
/// separates every character and both ends.
pub open spec fn split_text(s: Seq<char>, d: Seq<char>) -> Seq<Seq<char>> {
    if d.len() == 0 {
        seq![Seq::<char>::empty()] + char_pieces(s) + seq![Seq::<char>::empty()]
    } else {
        split_from(s, d, 0)
    }
}

/// The character sequences held by `v`.
pub open spec fn texts(v: Seq<Vec<char>>) -> Seq<Seq<char>> {
    Seq::new(v.len(), |i: int| v[i]@)
}

/// Joins `items` with one `sep` between consecutive items.
pub open spec fn join(items: Seq<Seq<char>>, sep: Seq<char>) -> Seq<char>
    decreases items.len(),
{
    if items.len() == 0 {
        Seq::empty()
    } else if items.len() == 1 {
        items[0]
    } else {
        join(items.drop_last(), sep) + sep + items.last()
    }
}

// ---------------------------------------------------------------------------
// Executable functions
// ---------------------------------------------------------------------------

/// Appends the characters of `src` to `dst`.
pub fn push_all(dst: &mut Vec<char>, src: &Vec<char>)
    ensures
        final(dst)@ == old(dst)@ + src@,
{
    let mut i: usize = 0;
    while i < src.len()
        invariant
            i <= src@.len(),
            dst@ == old(dst)@ + src@.subrange(0, i as int),
        decreases src@.len() - i,
    {
        dst.push(src[i]);
        i += 1;
        assert(dst@ =~= old(dst)@ + src@.subrange(0, i as int));
    }
    assert(src@.subrange(0, src@.len() as int) =~= src@);
}

/// A copy of `s`.
pub fn copy_chars(s: &Vec<char>) -> (r: Vec<char>)
    ensures
        r@ == s@,
{
    let r = s.clone();
    assert(r@ =~= s@);
    r
}

/// The characters of `s`.
pub fn chars_of(s: &String) -> (r: Vec<char>)
    ensures
        r@ == s@,
{
    let mut r: Vec<char> = Vec::new();
    broadcast use vstd::string::group_string_axioms;

    for c in it: s.as_str().chars()
        invariant
            r@ == it.seq().take(it.index() as int),
    {
        r.push(c);
    }
    assert(r@ =~= s@);
    r
}

pub fn digit_to_char(d: u64) -> (c: char)
    requires
        d < 10,
    ensures
        c == digit_char(d as int),
{
    let b: u8 = d as u8;
    (b + 48) as char
}

/// Decimal text of `n`.
pub fn u64_text(n: u64) -> (r: Vec<char>)
    ensures
        r@ == nat_text(n as nat),
    decreases n,
{
    let c = digit_to_char(n % 10);
    if n < 10 {
        let r = vec![c];
        assert(r@ =~= nat_text(n as nat));
        r
    } else {
        let mut r = u64_text(n / 10);
        r.push(c);
        r
    }
}

/// Decimal text of `i`.
pub fn i64_text(i: i64) -> (r: Vec<char>)
    ensures
        r@ == int_text(i as int),
{
    if i < 0 {
        let m: u64 = if i == i64::MIN {
            9223372036854775808u64
        } else {
            (-i) as u64
        };
        let mut r = vec!['-'];
        let digits = u64_text(m);
        push_all(&mut r, &digits);
        assert(r@ =~= int_text(i as int));
        r
    } else {
        u64_text(i as u64)
    }
}

/// Decimal text of `n`.
pub fn usize_text(n: usize) -> (r: Vec<char>)
    ensures
        r@ == int_text(n as int),
{
    u64_text(n as u64)
}

pub proof fn lemma_digits_value_monotone(p: Seq<char>, q: Seq<char>)
    ensures
        digits_value(p + q) >= digits_value(p),
    decreases q.len(),
{
    if q.len() > 0 {
        assert((p + q).drop_last() =~= p + q.drop_last());
        lemma_digits_value_monotone(p, q.drop_last());
    } else {
        assert(p + q =~= p);
    }
}

/// The value of the digits `s[start..]`, when they are all digits, there is at
/// least one, and the value fits in a `u64`.
fn digits_u64(s: &Vec<char>, start: usize) -> (r: Option<u64>)
    requires
        start <= s@.len(),
    ensures
        ({
            let t = s@.subrange(start as int, s@.len() as int);
            r == (if t.len() > 0 && all_digits(t) && digits_value(t) <= u64::MAX {
                Some(digits_value(t) as u64)
            } else {
                None
            })
        }),
{
    let ghost t = s@.subrange(start as int, s@.len() as int);
    if start >= s.len() {
        return None;
    }
    let mut acc: u64 = 0;
    let mut i: usize = start;
    while i < s.len()
        invariant
            start <= i <= s@.len(),
            t == s@.subrange(start as int, s@.len() as int),
            all_digits(s@.subrange(start as int, i as int)),
            acc as nat == digits_value(s@.subrange(start as int, i as int)),
        decreases s@.len() - i,
    {
        let c = s[i];
        let ghost pre = s@.subrange(start as int, i as int);
        let ghost next = s@.subrange(start as int, i + 1);
        assert(next.drop_last() =~= pre);
        if !('0' <= c && c <= '9') {
            assert(!is_digit(t[i - start]));
            return None;
        }
        let d: u64 = (c as u32 - 48) as u64;
        if acc > 1844674407370955161u64 || (acc == 1844674407370955161u64 && d > 5) {
            proof {
                assert(t =~= next + s@.subrange(i + 1, s@.len() as int));
                lemma_digits_value_monotone(next, s@.subrange(i + 1, s@.len() as int));
            }
            return None;
        }
        acc = acc * 10 + d;
        i += 1;
        assert(all_digits(s@.subrange(start as int, i as int))) by {
            assert forall|j: int| 0 <= j < next.len() implies is_digit(#[trigger] next[j]) by {
                if j < pre.len() {
                    assert(next[j] == pre[j]);
                }
            }
        }
    }
    Some(acc)
}

/// `str::parse::<i64>`.
pub fn parse_i64(s: &Vec<char>) -> (r: Option<i64>)
    ensures
        r == parse_i64_spec(s@),
{
    if s.len() == 0 {
        return None;
    }
    let neg = s[0] == '-';
    let start: usize = if s[0] == '-' || s[0] == '+' { 1 } else { 0 };
    proof {
        assert(s@.subrange(1, s@.len() as int) =~= s@.drop_first());
        assert(s@.subrange(0, s@.len() as int) =~= s@);
    }
    match digits_u64(s, start) {
        None => None,
        Some(m) => {
            if neg {
                if m <= 9223372036854775807u64 {
                    Some(-(m as i64))
                } else if m == 9223372036854775808u64 {
                    Some(i64::MIN)
                } else {
                    None
                }
            } else if m <= 9223372036854775807u64 {
                Some(m as i64)
            } else {
                None
            }
        },
    }
}

/// `str::parse::<isize>`.
pub fn parse_isize(s: &Vec<char>) -> (r: Option<isize>)
    ensures
        r == parse_isize_spec(s@),
{
    if s.len() == 0 {
        return None;
    }
    let neg = s[0] == '-';
    let start: usize = if s[0] == '-' || s[0] == '+' { 1 } else { 0 };
    proof {
        assert(s@.subrange(1, s@.len() as int) =~= s@.drop_first());
        assert(s@.subrange(0, s@.len() as int) =~= s@);
    }
    match digits_u64(s, start) {
        None => None,
        Some(m) => {
            if neg {
                if m <= isize::MAX as u64 {
                    Some(-(m as isize))
                } else if m == isize::MAX as u64 + 1 {
                    Some(isize::MIN)
                } else {
                    None
                }
            } else if m <= isize::MAX as u64 {
                Some(m as isize)
            } else {
                None
            }
        },
    }
}

/// `str::parse::<usize>`.
pub fn parse_usize(s: &Vec<char>) -> (r: Option<usize>)
    ensures
        r == parse_usize_spec(s@),
{
    if s.len() == 0 || s[0] == '-' {
        return None;
    }
    let start: usize = if s[0] == '+' { 1 } else { 0 };
    proof {
        assert(s@.subrange(1, s@.len() as int) =~= s@.drop_first());
        assert(s@.subrange(0, s@.len() as int) =~= s@);
    }
    match digits_u64(s, start) {
        None => None,
        Some(m) => {
            if m <= usize::MAX as u64 {
                Some(m as usize)
            } else {
                None
            }
        },
    }
}

/// `a` and `b` hold the same characters.
pub fn chars_eq(a: &Vec<char>, b: &Vec<char>) -> (r: bool)
    ensures
        r == (a@ == b@),
{
    if a.len() != b.len() {
        return false;
    }
    let mut i: usize = 0;
    while i < a.len()
        invariant
            a@.len() == b@.len(),
            i <= a@.len(),
            forall|j: int| 0 <= j < i ==> a@[j] == b@[j],
        decreases a@.len() - i,
    {
        if a[i] != b[i] {
            return false;
        }
        i += 1;
    }
    assert(a@ =~= b@);
    true
}

pub fn make_true() -> (r: Vec<char>)
    ensures
        r@ == text_true(),
{
    let r = vec!['t', 'r', 'u', 'e'];
    assert(r@ =~= text_true());
    r
}

pub fn make_false() -> (r: Vec<char>)
    ensures
        r@ == text_false(),
{
    let r = vec!['f', 'a', 'l', 's', 'e'];
    assert(r@ =~= text_false());
    r
}

/// `str::parse::<bool>`.
pub fn parse_bool(s: &Vec<char>) -> (r: Option<bool>)
    ensures
        r == parse_bool_spec(s@),
{
    if chars_eq(s, &make_true()) {
        Some(true)
    } else if chars_eq(s, &make_false()) {
        Some(false)
    } else {
        None
    }
}

/// The text of `b`.
pub fn bool_to_text(b: bool) -> (r: Vec<char>)
    ensures
        r@ == bool_text(b),
{
    if b {
        make_true()
    } else {
        make_false()
    }
}

/// The UTF-8 byte length of `s`, when it fits in a `usize`.
pub fn utf8_byte_len(s: &Vec<char>) -> (r: Option<usize>)
    ensures
        r == (if utf8_len(s@) <= usize::MAX {
            Some(utf8_len(s@) as usize)
        } else {
            None
        }),
{
    let mut acc: usize = 0;
    let mut i: usize = 0;
    while i < s.len()
        invariant
            i <= s@.len(),
            acc as nat == utf8_len(s@.subrange(0, i as int)),
        decreases s@.len() - i,
    {
        let code = s[i] as u32;
        let n: usize = if code < 0x80 {
            1
        } else if code < 0x800 {
            2
        } else if code < 0x10000 {
            3
        } else {
            4
        };
        assert(s@.subrange(0, i + 1).drop_last() =~= s@.subrange(0, i as int));
        if acc > usize::MAX - n {
            proof {
                lemma_utf8_len_monotone(s@.subrange(0, i + 1), s@.subrange(i + 1, s@.len() as int));
                assert(s@.subrange(0, i + 1) + s@.subrange(i + 1, s@.len() as int) =~= s@);
            }
            return None;
        }
        acc = acc + n;
        i += 1;
    }
    assert(s@.subrange(0, s@.len() as int) =~= s@);
    Some(acc)
}

pub proof fn lemma_utf8_len_monotone(p: Seq<char>, q: Seq<char>)
    ensures
        utf8_len(p + q) >= utf8_len(p),
    decreases q.len(),
{
    if q.len() > 0 {
        assert((p + q).drop_last() =~= p + q.drop_last());
        lemma_utf8_len_monotone(p, q.drop_last());
    } else {
        assert(p + q =~= p);
    }
}

/// `d` occurs in `s` at `i`.
fn occurs_at_exec(s: &Vec<char>, d: &Vec<char>, i: usize) -> (r: bool)
    requires
        i + d@.len() <= s@.len(),
    ensures
        r == occurs_at(s@, d@, i as int),
{
    let slen = s.len();
    let mut j: usize = 0;
    while j < d.len()
        invariant
            slen == s@.len(),
            i + d@.len() <= s@.len(),
            j <= d@.len(),
            forall|k: int| 0 <= k < j ==> s@[i + k] == d@[k],
        decreases d@.len() - j,
    {
        let idx = i + j;
        if s[idx] != d[j] {
            assert(s@.subrange(i as int, i + d@.len())[j as int] != d@[j as int]);
            return false;
        }
        j += 1;
    }
    assert(s@.subrange(i as int, i + d@.len()) =~= d@);
    true
}

/// The first index `k >= i` at which `d` occurs in `s`.
pub fn find_from_exec(s: &Vec<char>, d: &Vec<char>, i: usize) -> (r: Option<usize>)
    ensures
        match r {
            Some(k) => k as int == find_from(s@, d@, i as int) && i <= k && k + d@.len()
                <= s@.len(),
            None => find_from(s@, d@, i as int) < 0,
        },
{
    if i > s.len() {
        return None;
    }
    let mut k: usize = i;
    while d.len() <= s.len() - k
        invariant
            i <= k <= s@.len(),
            find_from(s@, d@, i as int) == find_from(s@, d@, k as int),
        decreases s@.len() - k,
    {
        if occurs_at_exec(s, d, k) {
            return Some(k);
        }
        if k == s.len() {
            assert(find_from(s@, d@, k + 1) == -1);
            return None;
        }
        k += 1;
    }
    None
}

/// `str::split` with a string pattern.
pub fn split_chars(s: &Vec<char>, d: &Vec<char>) -> (r: Vec<Vec<char>>)
    ensures
        texts(r@) == split_text(s@, d@),
{
    let mut r: Vec<Vec<char>> = Vec::new();
    if d.len() == 0 {
        r.push(Vec::new());
        let mut i: usize = 0;
        while i < s.len()
            invariant
                i <= s@.len(),
                texts(r@) == seq![Seq::<char>::empty()] + s@.subrange(0, i as int).map(
                    |j: int, c: char| seq![c],
                ),
            decreases s@.len() - i,
        {
            let ghost before = texts(r@);
            let piece = vec![s[i]];
            assert(piece@ =~= seq![s@[i as int]]);
            r.push(piece);
            i += 1;
            assert(texts(r@) =~= seq![Seq::<char>::empty()] + s@.subrange(0, i as int).map(
                |j: int, c: char| seq![c],
            )) by {
                assert(texts(r@) =~= before.push(seq![s@[i - 1]]));
            }
        }
        let ghost before = texts(r@);
        r.push(Vec::new());
        assert(s@.subrange(0, s@.len() as int) =~= s@);
        assert(texts(r@) =~= split_text(s@, d@)) by {
            assert(texts(r@) =~= before.push(Seq::<char>::empty()));
        }
        return r;
    }
    let slen = s.len();
    let mut p: usize = 0;
    loop
        invariant
            slen == s@.len(),
            d@.len() > 0,
            p <= s@.len(),
            texts(r@) + split_from(s@, d@, p as int) == split_from(s@, d@, 0),
        decreases s@.len() - p,
    {
        let ghost before = texts(r@);
        match find_from_exec(s, d, p) {
            None => {
                let piece = slice_chars(s, p, s.len());
                r.push(piece);
                assert(texts(r@) =~= before.push(s@.subrange(p as int, s@.len() as int)));
                assert(split_from(s@, d@, p as int) == seq![s@.subrange(p as int, s@.len() as int)]);
                assert(texts(r@) =~= before + split_from(s@, d@, p as int));
                return r;
            },
            Some(k) => {
                assert(find_from(s@, d@, p as int) == k as int);
                assert(k + d@.len() <= s@.len());
                let piece = slice_chars(s, p, k);
                r.push(piece);
                assert(texts(r@) =~= before.push(s@.subrange(p as int, k as int)));
                assert(split_from(s@, d@, p as int) == seq![s@.subrange(p as int, k as int)]
                    + split_from(s@, d@, k + d@.len()));
                assert(texts(r@) + split_from(s@, d@, k + d@.len()) =~= before + split_from(
                    s@,
                    d@,
                    p as int,
                ));
                p = k + d.len();
            },
        }
    }
}

/// The characters `s[from..to]`.
pub fn slice_chars(s: &Vec<char>, from: usize, to: usize) -> (r: Vec<char>)
    requires
        from <= to <= s@.len(),
    ensures
        r@ == s@.subrange(from as int, to as int),
{
    let mut r: Vec<char> = Vec::new();
    let mut i: usize = from;
    while i < to
        invariant
            from <= i <= to <= s@.len(),
            r@ == s@.subrange(from as int, i as int),
        decreases to - i,
    {
        r.push(s[i]);
        i += 1;
        assert(r@ =~= s@.subrange(from as int, i as int));
    }
    r
}

/// Whether `c` has the Unicode `White_Space` property, as `char::is_whitespace`
/// says.
pub uninterp spec fn white_space(c: char) -> bool;

/// `char::is_whitespace`.
#[verifier::external_body]
pub(crate) fn is_white_space(c: char) -> (r: bool)
    ensures
        r == white_space(c),
{
    c.is_whitespace()
}

} // verus!
