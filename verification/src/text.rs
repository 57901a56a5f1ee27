//! Character-level text helpers with the meaning std gives them, stated over
//! the characters of a string.

use vstd::prelude::*;

verus! {

/// The characters of `s`, in order.
pub fn chars_of(s: &str) -> (v: Vec<char>)
    ensures
        v@ == s@,
{
    let mut v: Vec<char> = Vec::new();
    for c in it: s.chars()
        invariant
            v@ == it.seq().take(it.index() as int),
    {
        v.push(c);
    }
    assert(v@ =~= s@);
    v
}

/// Appends one character to a string (`String::push`).
#[verifier::external_body]
pub(crate) fn push_char(s: &mut String, c: char)
    ensures
        final(s)@ == old(s)@.push(c),
{
    s.push(c);
}

/// The string made of the characters `v`.
pub fn string_from_chars(v: &[char]) -> (s: String)
    ensures
        s@ == v@,
{
    let mut s = String::new();
    let mut i: usize = 0;
    while i < v.len()
        invariant
            i <= v@.len(),
            s@ == v@.take(i as int),
        decreases v.len() - i,
    {
        push_char(&mut s, v[i]);
        i = i + 1;
        assert(s@ =~= v@.take(i as int));
    }
    assert(v@.take(i as int) =~= v@);
    s
}

/// Appends the characters `v` to `s`.
pub fn push_chars(s: &mut String, v: &[char])
    ensures
        final(s)@ == old(s)@ + v@,
{
    let ghost start = s@;
    let mut i: usize = 0;
    while i < v.len()
        invariant
            i <= v@.len(),
            s@ == start + v@.take(i as int),
        decreases v.len() - i,
    {
        push_char(s, v[i]);
        i = i + 1;
        assert(s@ =~= start + v@.take(i as int));
    }
    assert(v@.take(i as int) =~= v@);
}

/// Unicode `White_Space`, the set `char::is_whitespace` tests.
pub open spec fn is_white(c: char) -> bool {
    let u = c as u32;
    (0x9 <= u <= 0xD) || u == 0x20 || u == 0x85 || u == 0xA0 || u == 0x1680 || (0x2000 <= u
        <= 0x200A) || u == 0x2028 || u == 0x2029 || u == 0x202F || u == 0x205F || u == 0x3000
}

pub fn is_white_char(c: char) -> (b: bool)
    ensures
        b == is_white(c),
{
    let u = c as u32;
    (0x9 <= u && u <= 0xD) || u == 0x20 || u == 0x85 || u == 0xA0 || u == 0x1680 || (0x2000 <= u
        && u <= 0x200A) || u == 0x2028 || u == 0x2029 || u == 0x202F || u == 0x205F || u == 0x3000
}

/// `s` without its leading white space.
pub open spec fn lstrip(s: Seq<char>) -> Seq<char>
    decreases s.len(),
{
    if s.len() > 0 && is_white(s[0]) {
        lstrip(s.drop_first())
    } else {
        s
    }
}

/// `s` without its trailing white space.
pub open spec fn rstrip(s: Seq<char>) -> Seq<char>
    decreases s.len(),
{
    if s.len() > 0 && is_white(s.last()) {
        rstrip(s.drop_last())
    } else {
        s
    }
}

/// `s` without leading or trailing white space (`str::trim`).
pub open spec fn trim(s: Seq<char>) -> Seq<char> {
    rstrip(lstrip(s))
}

/// The characters of `s` with leading and trailing white space removed.
pub fn trim_chars(s: &[char]) -> (r: Vec<char>)
    ensures
        r@ == trim(s@),
{
    let n = s.len();
    let mut i: usize = 0;
    assert(s@.subrange(0, n as int) =~= s@);
    while i < n && is_white_char(s[i])
        invariant
            i <= n,
            n == s@.len(),
            lstrip(s@) == lstrip(s@.subrange(i as int, n as int)),
        decreases n - i,
    {
        assert(s@.subrange(i as int, n as int).drop_first() =~= s@.subrange(i + 1, n as int));
        i = i + 1;
    }
    assert(lstrip(s@) == s@.subrange(i as int, n as int));
    let mut j: usize = n;
    while j > i && is_white_char(s[j - 1])
        invariant
            i <= j <= n,
            n == s@.len(),
            trim(s@) == rstrip(s@.subrange(i as int, j as int)),
        decreases j,
    {
        assert(s@.subrange(i as int, j as int).drop_last() =~= s@.subrange(i as int, j - 1));
        j = j - 1;
    }
    let mut r: Vec<char> = Vec::new();
    r.extend_from_slice(&s[i..j]);
    r
}

/// ASCII lower case of one character (`char::to_ascii_lowercase`).
pub open spec fn ascii_lower(c: char) -> char {
    if 'A' <= c <= 'Z' {
        ((c as u32) + 32) as char
    } else {
        c
    }
}

/// ASCII lower case of every character.
pub open spec fn lower(s: Seq<char>) -> Seq<char> {
    Seq::new(s.len(), |i: int| ascii_lower(s[i]))
}

pub fn lower_char(c: char) -> (r: char)
    ensures
        r == ascii_lower(c),
{
    if 'A' <= c && c <= 'Z' {
        ((c as u8) + 32) as char
    } else {
        c
    }
}

pub fn lower_chars(s: &[char]) -> (r: Vec<char>)
    ensures
        r@ == lower(s@),
{
    let mut r: Vec<char> = Vec::new();
    let mut i: usize = 0;
    while i < s.len()
        invariant
            i <= s@.len(),
            r@ == lower(s@).take(i as int),
        decreases s.len() - i,
    {
        r.push(lower_char(s[i]));
        i = i + 1;
        assert(r@ =~= lower(s@).take(i as int));
    }
    assert(lower(s@).take(i as int) =~= lower(s@));
    r
}

/// `p` is a prefix of `s`.
pub open spec fn has_prefix(s: Seq<char>, p: Seq<char>) -> bool {
    p.len() <= s.len() && s.subrange(0, p.len() as int) == p
}

/// `p` occurs in `s` at index `i`.
pub open spec fn occurs_at(s: Seq<char>, p: Seq<char>, i: int) -> bool {
    0 <= i && i + p.len() <= s.len() && s.subrange(i, i + p.len()) == p
}

/// `p` occurs somewhere in `s` (`str::contains`).
pub open spec fn contains_seq(s: Seq<char>, p: Seq<char>) -> bool {
    exists|i: int| occurs_at(s, p, i)
}

pub fn matches_at(s: &[char], p: &[char], i: usize) -> (b: bool)
    ensures
        b == occurs_at(s@, p@, i as int),
{
    if i > s.len() || s.len() - i < p.len() {
        return false;
    }
    let mut k: usize = 0;
    while k < p.len()
        invariant
            k <= p@.len(),
            p@.len() == p.len(),
            s@.len() == s.len(),
            i + p@.len() <= s@.len(),
            forall|m: int| 0 <= m < k ==> s@[i + m] == p@[m],
        decreases p.len() - k,
    {
        if s[i + k] != p[k] {
            assert(s@.subrange(i as int, i + p@.len())[k as int] != p@[k as int]);
            return false;
        }
        k = k + 1;
    }
    assert(s@.subrange(i as int, i + p@.len()) =~= p@);
    true
}

pub fn starts_with(s: &[char], p: &[char]) -> (b: bool)
    ensures
        b == has_prefix(s@, p@),
{
    matches_at(s, p, 0)
}

pub fn contains(s: &[char], p: &[char]) -> (b: bool)
    ensures
        b == contains_seq(s@, p@),
{
    if p.len() > s.len() {
        assert forall|i: int| !occurs_at(s@, p@, i) by {}
        return false;
    }
    if p.len() == 0 {
        assert(s@.subrange(0, 0) =~= p@);
        assert(occurs_at(s@, p@, 0));
        return true;
    }
    let mut i: usize = 0;
    while i <= s.len() - p.len()
        invariant
            0 < p@.len() <= s@.len(),
            forall|m: int| 0 <= m < i ==> !occurs_at(s@, p@, m),
        decreases s.len() - p.len() + 1 - i,
    {
        if matches_at(s, p, i) {
            return true;
        }
        i = i + 1;
    }
    assert forall|m: int| !occurs_at(s@, p@, m) by {
        if 0 <= m < i {
        }
    }
    false
}

/// The characters of `s` before the first `c`, or all of `s` when it has none
/// (the first piece of `str::split`).
pub open spec fn before_first(s: Seq<char>, c: char) -> Seq<char>
    decreases s.len(),
{
    if s.len() == 0 {
        s
    } else if s[0] == c {
        Seq::empty()
    } else {
        seq![s[0]] + before_first(s.drop_first(), c)
    }
}

/// The characters of `s` after the last `c`, or all of `s` when it has none
/// (the first piece of `str::rsplit`).
pub open spec fn after_last(s: Seq<char>, c: char) -> Seq<char>
    decreases s.len(),
{
    if s.len() == 0 {
        s
    } else if s.last() == c {
        Seq::empty()
    } else {
        after_last(s.drop_last(), c).push(s.last())
    }
}

pub fn split_first(s: &[char], c: char) -> (r: Vec<char>)
    ensures
        r@ == before_first(s@, c),
{
    let mut i: usize = 0;
    assert(s@.skip(0) =~= s@);
    assert(s@.take(0) =~= Seq::<char>::empty());
    while i < s.len() && s[i] != c
        invariant
            i <= s@.len(),
            before_first(s@, c) == s@.take(i as int) + before_first(s@.skip(i as int), c),
        decreases s.len() - i,
    {
        assert(s@.skip(i as int).drop_first() =~= s@.skip(i + 1));
        assert(s@.take(i + 1) =~= s@.take(i as int) + seq![s@[i as int]]);
        i = i + 1;
    }
    if i < s.len() {
        assert(before_first(s@.skip(i as int), c) =~= Seq::empty());
    } else {
        assert(s@.skip(i as int) =~= Seq::<char>::empty());
    }
    assert(s@.take(i as int) =~= s@.subrange(0, i as int));
    let mut r: Vec<char> = Vec::new();
    r.extend_from_slice(&s[0..i]);
    assert(r@ =~= before_first(s@, c));
    r
}

pub fn rsplit_last(s: &[char], c: char) -> (r: Vec<char>)
    ensures
        r@ == after_last(s@, c),
{
    let n = s.len();
    let mut j: usize = n;
    assert(s@.take(n as int) =~= s@);
    while j > 0 && s[j - 1] != c
        invariant
            j <= n,
            n == s@.len(),
            after_last(s@, c) == after_last(s@.take(j as int), c) + s@.subrange(j as int, n as int),
        decreases j,
    {
        assert(s@.take(j as int).drop_last() =~= s@.take(j - 1));
        assert(s@.subrange(j - 1, n as int) =~= seq![s@[j - 1]] + s@.subrange(j as int, n as int));
        j = j - 1;
    }
    if j > 0 {
        assert(after_last(s@.take(j as int), c) =~= Seq::empty());
    } else {
        assert(s@.take(0) =~= Seq::<char>::empty());
    }
    let mut r: Vec<char> = Vec::new();
    r.extend_from_slice(&s[j..n]);
    assert(r@ =~= after_last(s@, c));
    r
}

/// Index of the last `c` in `s`.
pub open spec fn last_index(s: Seq<char>, c: char) -> Option<int>
    decreases s.len(),
{
    if s.len() == 0 {
        None
    } else if s.last() == c {
        Some(s.len() - 1)
    } else {
        last_index(s.drop_last(), c)
    }
}

pub fn find_last(s: &[char], c: char) -> (r: Option<usize>)
    ensures
        match last_index(s@, c) {
            Some(k) => r == Some(k as usize),
            None => r is None,
        },
{
    let n = s.len();
    let mut j: usize = n;
    assert(s@.take(n as int) =~= s@);
    while j > 0
        invariant
            j <= n,
            n == s@.len(),
            last_index(s@, c) == last_index(s@.take(j as int), c),
        decreases j,
    {
        if s[j - 1] == c {
            return Some(j - 1);
        }
        assert(s@.take(j as int).drop_last() =~= s@.take(j - 1));
        j = j - 1;
    }
    None
}

/// Index of the first `c` in `s`.
pub open spec fn first_index(s: Seq<char>, c: char) -> Option<int>
    decreases s.len(),
{
    if s.len() == 0 {
        None
    } else if s[0] == c {
        Some(0)
    } else {
        match first_index(s.drop_first(), c) {
            Some(k) => Some(k + 1),
            None => None,
        }
    }
}

pub fn find_first(s: &[char], c: char) -> (r: Option<usize>)
    ensures
        match first_index(s@, c) {
            Some(k) => r == Some(k as usize),
            None => r is None,
        },
{
    let mut i: usize = 0;
    assert(s@.skip(0) =~= s@);
    while i < s.len()
        invariant
            i <= s@.len(),
            first_index(s@, c) == match first_index(s@.skip(i as int), c) {
                Some(k) => Some(k + i),
                None => None,
            },
        decreases s.len() - i,
    {
        if s[i] == c {
            return Some(i);
        }
        assert(s@.skip(i as int).drop_first() =~= s@.skip(i + 1));
        i = i + 1;
    }
    assert(s@.skip(i as int) =~= Seq::<char>::empty());
    None
}

/// The pieces of `s` between the occurrences of `c` (`str::split`).
pub open spec fn split_pieces(s: Seq<char>, c: char) -> Seq<Seq<char>>
    decreases s.len(),
{
    match first_index(s, c) {
        None => seq![s],
        Some(k) => {
            if 0 <= k && k + 1 <= s.len() {
                seq![s.take(k)] + split_pieces(s.skip(k + 1), c)
            } else {
                seq![s]
            }
        },
    }
}

proof fn lemma_first_index_bound(s: Seq<char>, c: char)
    ensures
        first_index(s, c) matches Some(k) ==> 0 <= k < s.len() && s[k] == c && forall|m: int|
            0 <= m < k ==> s[m] != c,
        first_index(s, c) is None ==> forall|m: int| 0 <= m < s.len() ==> s[m] != c,
    decreases s.len(),
{
    if s.len() > 0 && s[0] != c {
        lemma_first_index_bound(s.drop_first(), c);
        assert forall|m: int| 1 <= m < s.len() implies s[m] == s.drop_first()[m - 1] by {}
    }
}

pub fn split_all(s: &[char], c: char) -> (r: Vec<Vec<char>>)
    ensures
        r@.len() == split_pieces(s@, c).len(),
        forall|i: int| 0 <= i < r@.len() ==> #[trigger] r@[i]@ == split_pieces(s@, c)[i],
{
    let mut r: Vec<Vec<char>> = Vec::new();
    let mut start: usize = 0;
    let ghost pieces = split_pieces(s@, c);
    assert(s@.skip(0) =~= s@);
    loop
        invariant
            start <= s@.len(),
            pieces == split_pieces(s@, c),
            r@.len() + split_pieces(s@.skip(start as int), c).len() == pieces.len(),
            forall|i: int| 0 <= i < r@.len() ==> #[trigger] r@[i]@ == pieces[i],
            forall|i: int| 0 <= i < split_pieces(s@.skip(start as int), c).len() ==>
                split_pieces(s@.skip(start as int), c)[i] == pieces[r@.len() + i],
        decreases s.len() - start,
    {
        let rest = &s[start..s.len()];
        assert(rest@ =~= s@.skip(start as int));
        proof { lemma_first_index_bound(rest@, c); }
        match find_first(rest, c) {
            None => {
                let mut piece: Vec<char> = Vec::new();
                piece.extend_from_slice(rest);
                r.push(piece);
                assert(r@.len() == pieces.len());
                assert forall|i: int| 0 <= i < r@.len() implies #[trigger] r@[i]@ == pieces[i] by {
                    if i == r@.len() - 1 {
                        assert(split_pieces(s@.skip(start as int), c)[0] == pieces[i]);
                    }
                }
                return r;
            },
            Some(k) => {
                let mut piece: Vec<char> = Vec::new();
                piece.extend_from_slice(&rest[0..k]);
                assert(piece@ =~= rest@.take(k as int));
                let ghost old_len = r@.len();
                let ghost sub = split_pieces(s@.skip(start as int), c);
                r.push(piece);
                assert(sub[0] == pieces[old_len as int]);
                assert(s@.skip(start as int).skip(k + 1) =~= s@.skip(start + k + 1));
                assert forall|i: int| 0 <= i < r@.len() implies #[trigger] r@[i]@ == pieces[i] by {
                    if i == old_len {
                    }
                }
                let ghost sub2 = split_pieces(s@.skip(start + k + 1), c);
                assert forall|i: int| 0 <= i < sub2.len() implies sub2[i] == pieces[r@.len() + i] by {
                    assert(sub[i + 1] == sub2[i]);
                }
                start = start + k + 1;
            },
        }
    }
}

pub open spec fn is_digit(c: char) -> bool {
    '0' <= c <= '9'
}

/// The number that a string of decimal digits denotes.
pub open spec fn digits_value(s: Seq<char>) -> nat
    decreases s.len(),
{
    if s.len() == 0 {
        0
    } else {
        digits_value(s.drop_last()) * 10 + ((s.last() as u32) - 48) as nat
    }
}

/// `str::parse` of an unsigned integer type whose largest value is `max`
/// succeeds: an optional `+` sign, then one or more ASCII digits whose value
/// is at most `max`.
pub open spec fn parses_uint(s: Seq<char>, max: nat) -> bool {
    let d = unsigned_digits(s);
    d.len() > 0 && all_digits(d) && digits_value(d) <= max
}

/// What `str::parse` reads as digits: all of `s`, less a leading `+` that
/// is followed by something.
pub open spec fn unsigned_digits(s: Seq<char>) -> Seq<char> {
    if s.len() > 1 && s[0] == '+' {
        s.drop_first()
    } else {
        s
    }
}

pub open spec fn all_digits(d: Seq<char>) -> bool {
    forall|i: int| 0 <= i < d.len() ==> is_digit(#[trigger] d[i])
}

pub fn parses_uint_chars(s: &[char], max: u64) -> (b: bool)
    ensures
        b == parses_uint(s@, max as nat),
{
    let start: usize = if s.len() > 1 && s[0] == '+' {
        1
    } else {
        0
    };
    let ghost d = unsigned_digits(s@);
    assert(d =~= s@.skip(start as int));
    if start >= s.len() {
        return false;
    }
    let mut value: u64 = 0;
    let mut i: usize = start;
    while i < s.len()
        invariant
            start <= i <= s@.len(),
            d == s@.skip(start as int),
            d == unsigned_digits(s@),
            forall|m: int| start <= m < i ==> is_digit(#[trigger] s@[m]),
            value as nat == digits_value(s@.subrange(start as int, i as int)),
            value <= max,
        decreases s.len() - i,
    {
        let c = s[i];
        if !('0' <= c && c <= '9') {
            assert(d[i - start] == s@[i as int]);
            assert(!is_digit(d[i - start]));
            return false;
        }
        let digit = (c as u32 - 48) as u64;
        assert(s@.subrange(start as int, i + 1).drop_last() =~= s@.subrange(start as int, i as int));
        if digit > max || value > (max - digit) / 10 {
            assert(digits_value(s@.subrange(start as int, i + 1)) > max) by (nonlinear_arith)
                requires
                    digits_value(s@.subrange(start as int, i + 1)) == value * 10 + digit,
                    digit > max || value > (max - digit) / 10,
            ;
            assert forall|m: int| 0 <= m < i + 1 - start implies is_digit(
                #[trigger] s@.subrange(start as int, i + 1)[m],
            ) by {
                assert(s@.subrange(start as int, i + 1)[m] == s@[start + m]);
            }

            proof {
                assert(s@.subrange(start as int, s@.len() as int) =~= d);
                assert(d.take(i + 1 - start) =~= s@.subrange(start as int, i + 1));
                if all_digits(d) {
                    lemma_digits_monotone(s@.subrange(start as int, i + 1), d);
                }
            }
            assert(s@.subrange(start as int, s@.len() as int) =~= d);
            return false;
        }
        value = value * 10 + digit;
        i = i + 1;
    }
    assert(s@.subrange(start as int, i as int) =~= d);
    true
}

/// Extending a string of digits never lowers its value.
proof fn lemma_digits_monotone(a: Seq<char>, b: Seq<char>)
    requires
        a.len() <= b.len(),
        a == b.take(a.len() as int),
        forall|i: int| 0 <= i < b.len() ==> is_digit(#[trigger] b[i]),
    ensures
        digits_value(a) <= digits_value(b),
    decreases b.len(),
{
    if a.len() < b.len() {
        assert(b.drop_last().take(a.len() as int) =~= a);
        lemma_digits_monotone(a, b.drop_last());
    } else {
        assert(a =~= b);
    }
}

pub open spec fn digit_char(d: nat) -> char {
    ((d % 10) + 48) as char
}

/// The decimal digits of `n`, most significant first (integer `Display`).
pub open spec fn decimal(n: nat) -> Seq<char>
    decreases n,
{
    if n < 10 {
        seq![digit_char(n)]
    } else {
        decimal(n / 10).push(digit_char(n % 10))
    }
}

pub fn push_decimal(out: &mut Vec<char>, n: u64)
    ensures
        final(out)@ == old(out)@ + decimal(n as nat),
    decreases n,
{
    if n >= 10 {
        push_decimal(out, n / 10);
    }
    let d = ((n % 10) as u8 + 48) as char;
    out.push(d);
    assert(decimal(n as nat) == if n < 10 {
        seq![digit_char(n as nat)]
    } else {
        decimal((n / 10) as nat).push(digit_char((n % 10) as nat))
    });
}

pub open spec fn hex_digit(d: nat) -> char {
    if d < 10 {
        (d + 48) as char
    } else {
        (d - 10 + 97) as char
    }
}

/// Two lower-case hexadecimal digits of a byte (`{:02x}`).
pub open spec fn hex_byte(b: u8) -> Seq<char> {
    seq![hex_digit((b / 16) as nat), hex_digit((b % 16) as nat)]
}

pub fn push_hex_byte(out: &mut Vec<char>, b: u8)
    ensures
        final(out)@ == old(out)@ + hex_byte(b),
{
    let hi = b / 16;
    let lo = b % 16;
    let h = if hi < 10 {
        (hi + 48) as char
    } else {
        (hi - 10 + 97) as char
    };
    let l = if lo < 10 {
        (lo + 48) as char
    } else {
        (lo - 10 + 97) as char
    };
    out.push(h);
    out.push(l);
    assert(out@ =~= old(out)@ + hex_byte(b));
}

pub fn same_chars(a: &[char], b: &[char]) -> (r: bool)
    ensures
        r == (a@ == b@),
{
    if a.len() != b.len() {
        return false;
    }
    let r = matches_at(a, b, 0);
    assert(r ==> a@.subrange(0, b@.len() as int) =~= a@);
    assert(a@ == b@ ==> a@.subrange(0, b@.len() as int) =~= b@);
    r
}

/// `s` with the prefix `p` removed, when it has it (`str::strip_prefix`).
pub open spec fn strip_prefix(s: Seq<char>, p: Seq<char>) -> Option<Seq<char>> {
    if has_prefix(s, p) {
        Some(s.skip(p.len() as int))
    } else {
        None
    }
}

pub fn strip_prefix_chars(s: &[char], p: &[char]) -> (r: Option<Vec<char>>)
    ensures
        match strip_prefix(s@, p@) {
            Some(t) => r matches Some(v) && v@ == t,
            None => r is None,
        },
{
    if starts_with(s, p) {
        let mut v: Vec<char> = Vec::new();
        v.extend_from_slice(&s[p.len()..s.len()]);
        assert(v@ =~= s@.skip(p@.len() as int));
        Some(v)
    } else {
        None
    }
}

pub fn contains_char(s: &[char], c: char) -> (b: bool)
    ensures
        b == s@.contains(c),
{
    match find_first(s, c) {
        Some(k) => {
            proof { lemma_first_index_found(s@, c); }
            true
        },
        None => {
            proof { lemma_first_index_found(s@, c); }
            false
        },
    }
}

pub proof fn lemma_first_index_found(s: Seq<char>, c: char)
    ensures
        first_index(s, c) is Some <==> s.contains(c),
        first_index(s, c) matches Some(k) ==> 0 <= k < s.len() && s[k] == c,
{
    lemma_first_index_bound(s, c);
    if let Some(k) = first_index(s, c) {
        assert(s[k] == c);
    }
}

pub proof fn lemma_last_index_bound(s: Seq<char>, c: char)
    ensures
        last_index(s, c) matches Some(k) ==> 0 <= k < s.len() && s[k] == c && forall|m: int|
            k < m < s.len() ==> s[m] != c,
        last_index(s, c) is None ==> forall|m: int| 0 <= m < s.len() ==> s[m] != c,
        last_index(s, c) is Some <==> s.contains(c),
    decreases s.len(),
{
    if s.len() > 0 && s.last() != c {
        lemma_last_index_bound(s.drop_last(), c);
        assert forall|m: int| 0 <= m < s.len() - 1 implies s[m] == s.drop_last()[m] by {}
    }
    if last_index(s, c) is Some {
        let k = last_index(s, c).unwrap();
        assert(s[k] == c);
    }
}

/// The first index at or after `i` that holds no whitespace (or the end).
pub open spec fn skip_white_from(s: Seq<char>, i: int) -> int
    decreases s.len() - i,
{
    if i < 0 || i >= s.len() || !is_white(s[i]) {
        i
    } else {
        skip_white_from(s, i + 1)
    }
}

/// The first index at or after `i` that holds whitespace (or the end).
pub open spec fn word_end_from(s: Seq<char>, i: int) -> int
    decreases s.len() - i,
{
    if i < 0 || i >= s.len() || is_white(s[i]) {
        i
    } else {
        word_end_from(s, i + 1)
    }
}

/// The second whitespace-separated word of `s`, or nothing when it has
/// fewer (`s.split_whitespace().nth(1).unwrap_or("")`).
pub open spec fn second_word(s: Seq<char>) -> Seq<char> {
    let a = skip_white_from(s, 0);
    let b = word_end_from(s, a);
    let c = skip_white_from(s, b);
    s.subrange(c, word_end_from(s, c))
}

proof fn lemma_skip_white_bounds(s: Seq<char>, i: int)
    requires
        0 <= i <= s.len(),
    ensures
        i <= skip_white_from(s, i) <= s.len(),
    decreases s.len() - i,
{
    if i < s.len() && is_white(s[i]) {
        lemma_skip_white_bounds(s, i + 1);
    }
}

proof fn lemma_word_end_bounds(s: Seq<char>, i: int)
    requires
        0 <= i <= s.len(),
    ensures
        i <= word_end_from(s, i) <= s.len(),
    decreases s.len() - i,
{
    if i < s.len() && !is_white(s[i]) {
        lemma_word_end_bounds(s, i + 1);
    }
}

fn skip_white(s: &[char], i: usize) -> (j: usize)
    requires
        i <= s@.len(),
    ensures
        j == skip_white_from(s@, i as int),
{
    let mut j = i;
    while j < s.len() && is_white_char(s[j])
        invariant
            i <= j <= s@.len(),
            skip_white_from(s@, i as int) == skip_white_from(s@, j as int),
        decreases s.len() - j,
    {
        j = j + 1;
    }
    j
}

fn word_end(s: &[char], i: usize) -> (j: usize)
    requires
        i <= s@.len(),
    ensures
        j == word_end_from(s@, i as int),
{
    let mut j = i;
    while j < s.len() && !is_white_char(s[j])
        invariant
            i <= j <= s@.len(),
            word_end_from(s@, i as int) == word_end_from(s@, j as int),
        decreases s.len() - j,
    {
        j = j + 1;
    }
    j
}

/// The second whitespace-separated word of `s`.
pub fn second_word_of(s: &[char]) -> (r: Vec<char>)
    ensures
        r@ == second_word(s@),
{
    let a = skip_white(s, 0);
    proof {
        lemma_skip_white_bounds(s@, 0);
    }
    let b = word_end(s, a);
    proof {
        lemma_word_end_bounds(s@, a as int);
    }
    let c = skip_white(s, b);
    proof {
        lemma_skip_white_bounds(s@, b as int);
    }
    let d = word_end(s, c);
    proof {
        lemma_word_end_bounds(s@, c as int);
    }
    let mut r: Vec<char> = Vec::new();
    r.extend_from_slice(&s[c..d]);
    r
}

} // verus!
