//! Small verified string helpers used throughout the library, together
//! with the few trusted wrappers over `std` string functions that vstd
//! gives no specification.

use vstd::prelude::*;

verus! {

/// `p` is a prefix of `s`.
pub open spec fn is_prefix(p: Seq<char>, s: Seq<char>) -> bool {
    p.len() <= s.len() && s.subrange(0, p.len() as int) == p
}

/// Character-wise equality of two string slices.
pub fn str_eq(a: &str, b: &str) -> (r: bool)
    ensures
        r == (a@ == b@),
{
    let n = a.unicode_len();
    if n != b.unicode_len() {
        return false;
    }
    let mut i: usize = 0;
    while i < n
        invariant
            i <= n,
            n == a@.len(),
            n == b@.len(),
            forall|j: int| 0 <= j < i ==> a@[j] == b@[j],
        decreases n - i,
    {
        let ca = a.get_char(i);
        let cb = b.get_char(i);
        if ca != cb {
            assert(a@ == b@ ==> a@[i as int] == b@[i as int]);
            return false;
        }
        i += 1;
    }
    proof {
        assert(a@ =~= b@);
    }
    true
}

/// Does `s` start with the prefix `p`?
pub fn starts_with(s: &str, p: &str) -> (r: bool)
    ensures
        r == is_prefix(p@, s@),
{
    let np = p.unicode_len();
    let ns = s.unicode_len();
    if np > ns {
        assert(!is_prefix(p@, s@));
        return false;
    }
    let head = s.substring_char(0, np);
    let r = str_eq(head, p);
    proof {
        if head@ == p@ {
            assert(is_prefix(p@, s@));
        } else {
            assert(s@.subrange(0, p@.len() as int) == head@);
        }
    }
    r
}

/// The first position of `c` in `s`, if any.
pub fn find_char(s: &str, c: char) -> (r: Option<usize>)
    ensures
        match r {
            Some(i) => i < s@.len() && s@[i as int] == c && forall|j: int|
                0 <= j < i ==> s@[j] != c,
            None => forall|j: int| 0 <= j < s@.len() ==> s@[j] != c,
        },
{
    let n = s.unicode_len();
    let mut i: usize = 0;
    while i < n
        invariant
            i <= n,
            n == s@.len(),
            forall|j: int| 0 <= j < i ==> s@[j] != c,
        decreases n - i,
    {
        if s.get_char(i) == c {
            return Some(i);
        }
        i += 1;
    }
    None
}

/// Lower-casing of a single character, ASCII letters only.
pub open spec fn lower_char(c: char) -> char {
    if 'A' <= c && c <= 'Z' {
        ((c as u8) + 32) as char
    } else {
        c
    }
}

/// Character-wise ASCII lower-casing of a sequence.
pub open spec fn lower_seq(s: Seq<char>) -> Seq<char> {
    s.map(|_i: int, c: char| lower_char(c))
}

/// Relies on `str::to_ascii_lowercase`: ASCII upper-case letters are
/// mapped to lower case, every other character is unchanged.
#[verifier::external_body]
pub fn ascii_lower(s: &str) -> (r: String)
    ensures
        r@ == lower_seq(s@),
{
    s.to_ascii_lowercase()
}

/// The decimal digit character for a value below ten.
pub open spec fn dec_digit(n: nat) -> char {
    (('0' as u8) + (n % 10)) as char
}

/// The usual decimal notation of a natural number.
pub open spec fn dec_str(n: nat) -> Seq<char>
    decreases n,
{
    if n < 10 {
        seq![dec_digit(n)]
    } else {
        dec_str(n / 10).push(dec_digit(n % 10))
    }
}

/// Relies on `u32`'s `ToString` impl: it prints the number in decimal
/// with no sign, padding or separators.
#[verifier::external_body]
pub fn u32_dec(n: u32) -> (r: String)
    ensures
        r@ == dec_str(n as nat),
{
    n.to_string()
}

/// Relies on `u64`'s `ToString` impl: it prints the number in decimal
/// with no sign, padding or separators.
#[verifier::external_body]
pub fn u64_dec(n: u64) -> (r: String)
    ensures
        r@ == dec_str(n as nat),
{
    n.to_string()
}

/// Decimal rendering of a port or status number.
pub fn u16_dec(n: u16) -> (r: String)
    ensures
        r@ == dec_str(n as nat),
{
    u32_dec(n as u32)
}

/// The numeric value of a decimal digit character, or none.
pub open spec fn digit_val(c: char) -> Option<nat> {
    if '0' <= c && c <= '9' {
        Some((c as nat - '0' as nat) as nat)
    } else {
        None
    }
}

/// The value of a non-empty all-digit sequence read as decimal.
pub open spec fn dec_val(s: Seq<char>) -> nat
    decreases s.len(),
{
    if s.len() == 0 {
        0
    } else {
        dec_val(s.drop_last()) * 10 + digit_val(s.last()).unwrap_or(0)
    }
}

/// All characters of `s` are decimal digits.
pub open spec fn all_digits(s: Seq<char>) -> bool {
    forall|i: int| 0 <= i < s.len() ==> digit_val(s[i]) is Some
}

/// Parse a decimal port number; `None` unless `s` is a non-empty digit
/// string whose value fits in sixteen bits.
pub fn parse_u16(s: &str) -> (r: Option<u16>)
    ensures
        match r {
            Some(v) => s@.len() > 0 && all_digits(s@) && dec_val(s@) == v as nat && dec_val(
                s@,
            ) <= u16::MAX,
            None => s@.len() == 0 || !all_digits(s@) || dec_val(s@) > u16::MAX,
        },
{
    let n = s.unicode_len();
    if n == 0 {
        return None;
    }
    let mut acc: u32 = 0;
    let mut i: usize = 0;
    while i < n
        invariant
            i <= n,
            n == s@.len(),
            n > 0,
            all_digits(s@.subrange(0, i as int)),
            acc as nat == dec_val(s@.subrange(0, i as int)),
            acc <= u16::MAX,
        decreases n - i,
    {
        let c = s.get_char(i);
        if c < '0' || c > '9' {
            assert(digit_val(s@[i as int]) is None);
            return None;
        }
        let d: u32 = (c as u32) - ('0' as u32);
        let next: u32 = acc * 10 + d;
        proof {
            assert(s@.subrange(0, (i + 1) as int).drop_last() =~= s@.subrange(0, i as int));
            assert(s@.subrange(0, (i + 1) as int).last() == s@[i as int]);
        }
        if next > 65535 {
            proof {
                lemma_dec_val_prefix_monotone(s@, (i + 1) as int);
            }
            return None;
        }
        acc = next;
        i += 1;
    }
    proof {
        assert(s@.subrange(0, n as int) =~= s@);
    }
    Some(acc as u16)
}

/// Extending a digit string to the right never shrinks its value.
proof fn lemma_dec_val_prefix_monotone(s: Seq<char>, k: int)
    requires
        0 <= k <= s.len(),
    ensures
        dec_val(s.subrange(0, k)) <= dec_val(s),
    decreases s.len() - k,
{
    if k < s.len() {
        lemma_dec_val_prefix_monotone(s, k + 1);
        assert(s.subrange(0, k + 1).drop_last() =~= s.subrange(0, k));
        assert(dec_val(s.subrange(0, k)) <= dec_val(s.subrange(0, k + 1)));
    } else {
        assert(s.subrange(0, k) =~= s);
    }
}

/// The first index of `c` in `s`, as a mathematical value.
pub open spec fn find_first(s: Seq<char>, c: char) -> Option<int> {
    if exists|i: int| 0 <= i < s.len() && s[i] == c {
        Some(
            choose|i: int|
                0 <= i < s.len() && s[i] == c && forall|j: int| 0 <= j < i ==> s[j] != c,
        )
    } else {
        None
    }
}

/// `find_first` indeed names the first occurrence.
pub proof fn lemma_find_first(s: Seq<char>, c: char)
    ensures
        match find_first(s, c) {
            Some(i) => 0 <= i < s.len() && s[i] == c && forall|j: int| 0 <= j < i ==> s[j] != c,
            None => forall|j: int| 0 <= j < s.len() ==> s[j] != c,
        },
{
    if exists|i: int| 0 <= i < s.len() && s[i] == c {
        let w = choose|i: int| 0 <= i < s.len() && s[i] == c;
        lemma_first_witness(s, c, w);
    }
}

/// Below any occurrence of `c` there is a first one.
proof fn lemma_first_witness(s: Seq<char>, c: char, w: int)
    requires
        0 <= w < s.len(),
        s[w] == c,
    ensures
        exists|i: int|
            0 <= i < s.len() && s[i] == c && forall|j: int| 0 <= j < i ==> #[trigger] s[j] != c,
    decreases w,
{
    if forall|j: int| 0 <= j < w ==> #[trigger] s[j] != c {
        assert(0 <= w < s.len() && s[w] == c && forall|j: int|
            0 <= j < w ==> #[trigger] s[j] != c);
    } else {
        let w2 = choose|j: int| 0 <= j < w && #[trigger] s[j] == c;
        lemma_first_witness(s, c, w2);
    }
}

/// The pieces of `s` between occurrences of `c`: always one piece more
/// than there are separators.
pub open spec fn split_on(s: Seq<char>, c: char) -> Seq<Seq<char>>
    decreases s.len(),
    via split_on_dec
{
    match find_first(s, c) {
        None => seq![s],
        Some(i) => seq![s.take(i)] + split_on(s.skip(i + 1), c),
    }
}

#[via_fn]
proof fn split_on_dec(s: Seq<char>, c: char) {
    lemma_find_first(s, c);
}

/// One splitting step: up to the next separator.
proof fn lemma_split_step_found(s: Seq<char>, cur: int, j: int, c: char)
    requires
        0 <= cur <= j < s.len(),
        forall|t: int| cur <= t < j ==> s[t] != c,
        s[j] == c,
    ensures
        split_on(s.skip(cur), c) == seq![s.subrange(cur, j)] + split_on(s.skip(j + 1), c),
{
    let rem = s.skip(cur);
    lemma_find_first(rem, c);
    assert(rem[j - cur] == c);
    match find_first(rem, c) {
        None => {
            assert(false);
        },
        Some(x) => {
            assert forall|t: int| 0 <= t < j - cur implies rem[t] != c by {
                assert(rem[t] == s[cur + t]);
            }
            if x < j - cur {
                assert(rem[x] != c);
            }
            if x > j - cur {
                assert(rem[j - cur] != c);
            }
            assert(x == j - cur);
            assert(rem.take(x) =~= s.subrange(cur, j));
            assert(rem.skip(x + 1) =~= s.skip(j + 1));
        },
    }
}

/// The final splitting step: no separator remains.
proof fn lemma_split_step_end(s: Seq<char>, cur: int, c: char)
    requires
        0 <= cur <= s.len(),
        forall|t: int| cur <= t < s.len() ==> s[t] != c,
    ensures
        split_on(s.skip(cur), c) == seq![s.subrange(cur, s.len() as int)],
{
    let rem = s.skip(cur);
    lemma_find_first(rem, c);
    match find_first(rem, c) {
        Some(x) => {
            assert(rem[x] == s[cur + x]);
            assert(false);
        },
        None => {
            assert(rem =~= s.subrange(cur, s.len() as int));
        },
    }
}

/// Split `s` at every occurrence of `c`.
#[verifier::rlimit(50)]
pub fn split_char(s: &str, c: char) -> (r: Vec<String>)
    ensures
        r.deep_view() == split_on(s@, c),
{
    let n = s.unicode_len();
    let mut out: Vec<String> = Vec::new();
    let mut cur: usize = 0;
    let mut done = false;
    proof {
        assert(s@.skip(0) =~= s@);
        assert(out.deep_view() =~= Seq::<Seq<char>>::empty());
    }
    while !done
        invariant
            cur <= n,
            n == s@.len(),
            !done ==> split_on(s@, c) == out.deep_view() + split_on(
                s@.skip(cur as int),
                c,
            ),
            done ==> out.deep_view() == split_on(s@, c),
        decreases n - cur + (if done { 0int } else { 1int }),
    {
        let ghost out0 = out.deep_view();
        let mut j: usize = cur;
        while j < n && s.get_char(j) != c
            invariant
                cur <= j <= n,
                n == s@.len(),
                forall|t: int| cur <= t < j ==> s@[t] != c,
            decreases n - j,
        {
            j += 1;
        }
        let piece = s.substring_char(cur, j);
        out.push(piece.to_owned());
        proof {
            assert(out.deep_view() =~= out0.push(piece@));
        }
        if j < n {
            proof {
                lemma_split_step_found(s@, cur as int, j as int, c);
                let tail = split_on(s@.skip(j as int + 1), c);
                assert(out0.push(piece@) + tail =~= out0 + (seq![piece@] + tail));
            }
            cur = j + 1;
        } else {
            proof {
                lemma_split_step_end(s@, cur as int, c);
                assert(out0.push(piece@) =~= out0 + seq![piece@]);
            }
            done = true;
        }
    }
    out
}

} // verus!
