//! Paths of the disk scheme and the listing of its root: a path names the
//! root when nothing but slashes is left of it, and a disk when what is left
//! reads as a decimal index.

use vstd::prelude::*;

verus! {

/// The byte of `/`.
pub open spec fn is_slash(b: u8) -> bool {
    b == 0x2F
}

/// The byte string without its leading slashes.
pub open spec fn trim_start_slashes(s: Seq<u8>) -> Seq<u8>
    decreases s.len(),
{
    if s.len() > 0 && is_slash(s[0]) {
        trim_start_slashes(s.drop_first())
    } else {
        s
    }
}

/// The byte string without its trailing slashes.
pub open spec fn trim_end_slashes(s: Seq<u8>) -> Seq<u8>
    decreases s.len(),
{
    if s.len() > 0 && is_slash(s.last()) {
        trim_end_slashes(s.drop_last())
    } else {
        s
    }
}

/// The byte string without its leading and trailing slashes.
pub open spec fn trim_slashes(s: Seq<u8>) -> Seq<u8> {
    trim_end_slashes(trim_start_slashes(s))
}

/// An ASCII decimal digit.
pub open spec fn is_digit(b: u8) -> bool {
    0x30 <= b <= 0x39
}

/// Every byte is an ASCII decimal digit.
pub open spec fn all_digits(s: Seq<u8>) -> bool {
    forall|i: int| 0 <= i < s.len() ==> #[trigger] is_digit(s[i])
}

/// The number that a string of decimal digits denotes.
pub open spec fn digits_value(s: Seq<u8>) -> nat
    decreases s.len(),
{
    if s.len() == 0 {
        0
    } else {
        digits_value(s.drop_last()) * 10 + (s.last() - 0x30) as nat
    }
}

/// The digits of a number, after one leading `+` if there is one.
pub open spec fn unsigned_digits(s: Seq<u8>) -> Seq<u8> {
    if s.len() > 0 && s[0] == 0x2B {
        s.drop_first()
    } else {
        s
    }
}

/// The `usize` that a byte string reads as: an optional `+` and then one or
/// more decimal digits, whose value fits in a `usize`. `None` for anything
/// else.
pub open spec fn parse_usize(s: Seq<u8>) -> Option<usize> {
    let d = unsigned_digits(s);
    if d.len() > 0 && all_digits(d) && digits_value(d) <= usize::MAX {
        Some(digits_value(d) as usize)
    } else {
        None
    }
}

/// The decimal digits of a number, most significant first, without leading
/// zeros.
pub open spec fn decimal(n: nat) -> Seq<u8>
    decreases n,
{
    if n < 10 {
        seq![(0x30 + n) as u8]
    } else {
        decimal(n / 10).push((0x30 + n % 10) as u8)
    }
}

/// The listing of a root with `count` disks: each index from 0 up, in
/// decimal, followed by a newline.
pub open spec fn listing(count: nat) -> Seq<u8>
    decreases count,
{
    if count == 0 {
        Seq::empty()
    } else {
        listing((count - 1) as nat) + decimal((count - 1) as nat).push(0x0A)
    }
}

proof fn lemma_trim_start_step(s: Seq<u8>, i: int)
    requires
        0 <= i < s.len(),
        is_slash(s[i]),
    ensures
        trim_start_slashes(s.subrange(i, s.len() as int)) == trim_start_slashes(
            s.subrange(i + 1, s.len() as int),
        ),
{
    assert(s.subrange(i, s.len() as int).drop_first() =~= s.subrange(i + 1, s.len() as int));
}

proof fn lemma_trim_end_step(s: Seq<u8>, i: int, j: int)
    requires
        0 <= i < j <= s.len(),
        is_slash(s[j - 1]),
    ensures
        trim_end_slashes(s.subrange(i, j)) == trim_end_slashes(s.subrange(i, j - 1)),
{
    assert(s.subrange(i, j).drop_last() =~= s.subrange(i, j - 1));
}

/// The bounds of what is left of a path once its leading and trailing
/// slashes are trimmed.
pub fn trim_slashes_range(path: &[u8]) -> (r: (usize, usize))
    ensures
        r.0 <= r.1 <= path@.len(),
        path@.subrange(r.0 as int, r.1 as int) == trim_slashes(path@),
{
    let n = path.len();
    let mut i: usize = 0;
    assert(path@.subrange(0, n as int) =~= path@);
    while i < n && path[i] == 0x2F
        invariant
            i <= n,
            n == path@.len(),
            trim_start_slashes(path@) == trim_start_slashes(path@.subrange(i as int, n as int)),
        decreases n - i,
    {
        proof {
            lemma_trim_start_step(path@, i as int);
        }
        i = i + 1;
    }
    assert(trim_start_slashes(path@) == path@.subrange(i as int, n as int));
    let mut j: usize = n;
    while j > i && path[j - 1] == 0x2F
        invariant
            i <= j <= n,
            n == path@.len(),
            trim_start_slashes(path@) == path@.subrange(i as int, n as int),
            trim_slashes(path@) == trim_end_slashes(path@.subrange(i as int, j as int)),
        decreases j,
    {
        proof {
            lemma_trim_end_step(path@, i as int, j as int);
        }
        j = j - 1;
    }
    (i, j)
}

proof fn lemma_digits_value_prefix(s: Seq<u8>, j: int)
    requires
        all_digits(s),
        0 <= j <= s.len(),
    ensures
        digits_value(s.subrange(0, j)) <= digits_value(s),
    decreases s.len(),
{
    if j < s.len() {
        assert(all_digits(s.drop_last()));
        assert(s.drop_last().subrange(0, j) =~= s.subrange(0, j));
        lemma_digits_value_prefix(s.drop_last(), j);
    } else {
        assert(s.subrange(0, j) =~= s);
    }
}

proof fn lemma_digits_value_step(s: Seq<u8>, k: int, i: int)
    requires
        0 <= k <= i < s.len(),
    ensures
        digits_value(s.subrange(k, i + 1)) == digits_value(s.subrange(k, i)) * 10 + (s[i]
            - 0x30) as nat,
{
    assert(s.subrange(k, i + 1).drop_last() =~= s.subrange(k, i));
}

/// Reads `path[start..end]` as a `usize`, as `str::parse::<usize>` does.
pub fn parse_usize_range(path: &[u8], start: usize, end: usize) -> (r: Option<usize>)
    requires
        start <= end <= path@.len(),
    ensures
        r == parse_usize(path@.subrange(start as int, end as int)),
{
    let ghost s = path@.subrange(start as int, end as int);
    let mut k: usize = start;
    if k < end && path[k] == 0x2B {
        k = k + 1;
    }
    let ghost d = path@.subrange(k as int, end as int);
    assert(unsigned_digits(s) =~= d);
    if k == end {
        return None;
    }
    let mut acc: usize = 0;
    let mut i: usize = k;
    assert(path@.subrange(k as int, k as int) =~= Seq::<u8>::empty());
    while i < end
        invariant
            k <= i <= end <= path@.len(),
            k < end,
            d == path@.subrange(k as int, end as int),
            unsigned_digits(s) == d,
            s == path@.subrange(start as int, end as int),
            all_digits(path@.subrange(k as int, i as int)),
            acc as nat == digits_value(path@.subrange(k as int, i as int)),
        decreases end - i,
    {
        let b: u8 = path[i];
        if b < 0x30 || b > 0x39 {
            assert(d[i - k] == b);
            assert(!is_digit(d[i - k]));
            assert(!all_digits(d));
            return None;
        }
        let digit: usize = (b - 0x30) as usize;
        proof {
            lemma_digits_value_step(path@, k as int, i as int);
            assert(path@.subrange(k as int, i as int + 1) =~= d.subrange(0, i - k + 1));
            if all_digits(d) {
                lemma_digits_value_prefix(d, i - k + 1);
            }
            assert(all_digits(path@.subrange(k as int, i as int + 1)));
        }
        match acc.checked_mul(10) {
            None => {
                assert(digits_value(path@.subrange(k as int, i as int + 1)) > usize::MAX);
                return None;
            },
            Some(m) => match m.checked_add(digit) {
                None => {
                    assert(digits_value(path@.subrange(k as int, i as int + 1)) > usize::MAX);
                    return None;
                },
                Some(v) => {
                    acc = v;
                },
            },
        }
        i = i + 1;
    }
    assert(path@.subrange(k as int, i as int) =~= d);
    Some(acc)
}

/// Appends the decimal digits of `n`.
fn push_decimal(out: &mut Vec<u8>, n: usize)
    ensures
        final(out)@ == old(out)@ + decimal(n as nat),
    decreases n,
{
    let ghost start = out@;
    if n >= 10 {
        push_decimal(out, n / 10);
    }
    let digit: u8 = (n % 10) as u8;
    out.push(0x30 + digit);
    proof {
        if n >= 10 {
            assert((start + decimal((n / 10) as nat)).push((0x30 + n % 10) as u8) =~= start
                + decimal((n / 10) as nat).push((0x30 + n % 10) as u8));
        } else {
            assert(start.push((0x30 + n) as u8) =~= start + seq![(0x30 + n) as u8]);
        }
    }
}

/// The contents of the root directory of a scheme with `count` disks.
pub fn disk_listing(count: usize) -> (r: Vec<u8>)
    ensures
        r@ == listing(count as nat),
{
    let mut list: Vec<u8> = Vec::new();
    let mut i: usize = 0;
    while i < count
        invariant
            i <= count,
            list@ == listing(i as nat),
        decreases count - i,
    {
        let ghost before = list@;
        push_decimal(&mut list, i);
        list.push(0x0A);
        assert((before + decimal(i as nat)).push(0x0A) =~= before + decimal(i as nat).push(0x0A));
        i = i + 1;
    }
    list
}

proof fn lemma_decimal_digits(n: nat)
    ensures
        decimal(n).len() > 0,
        all_digits(decimal(n)),
        digits_value(decimal(n)) == n,
    decreases n,
{
    if n >= 10 {
        lemma_decimal_digits(n / 10);
        let d = decimal(n);
        assert(d.drop_last() =~= decimal(n / 10));
        assert forall|i: int| 0 <= i < d.len() implies #[trigger] is_digit(d[i]) by {
            if i < d.len() - 1 {
                assert(d[i] == decimal(n / 10)[i]);
            }
        }
        assert(d.last() == (0x30 + n % 10) as u8);
        assert((d.last() - 0x30) as nat == n % 10);
        assert(n == (n / 10) * 10 + n % 10);
        assert(digits_value(d) == digits_value(d.drop_last()) * 10 + (d.last() - 0x30) as nat);
        assert(digits_value(d.drop_last()) == n / 10);
    } else {
        let d = decimal(n);
        assert(d.drop_last() =~= Seq::<u8>::empty());
        assert((d.last() - 0x30) as nat == n);
        assert(digits_value(d) == digits_value(d.drop_last()) * 10 + (d.last() - 0x30) as nat);
    }
}

/// Every name that the root listing holds reads back as the index of its
/// disk: the decimal form of `n`, slashes trimmed and parsed, gives `n`.
pub proof fn lemma_listed_name_parses(n: usize)
    ensures
        trim_slashes(decimal(n as nat)) == decimal(n as nat),
        parse_usize(trim_slashes(decimal(n as nat))) == Some(n),
{
    lemma_decimal_digits(n as nat);
    let d = decimal(n as nat);
    assert(is_digit(d[0]));
    assert(is_digit(d[d.len() - 1]));
    assert(trim_start_slashes(d) == d);
    assert(trim_end_slashes(d) == d);
    assert(unsigned_digits(d) == d);
}

/// A decimal number reads as itself after one leading `+`, and a string
/// that is empty, a bare `+`, or holds a byte other than a digit after the
/// optional leading `+` reads as nothing.
pub proof fn lemma_parse_usize_forms(n: usize, s: Seq<u8>, i: int)
    ensures
        parse_usize(seq![0x2Bu8] + decimal(n as nat)) == Some(n),
        parse_usize(Seq::empty()) == None::<usize>,
        parse_usize(seq![0x2Bu8]) == None::<usize>,
        1 <= i < s.len() && !(0x30 <= s[i] <= 0x39) ==> parse_usize(s) == None::<usize>,
        0 <= i < s.len() && s[0] != 0x2B && !(0x30 <= s[i] <= 0x39) ==> parse_usize(s)
            == None::<usize>,
{
    lemma_decimal_digits(n as nat);
    assert((seq![0x2Bu8] + decimal(n as nat)).drop_first() =~= decimal(n as nat));
    assert(seq![0x2Bu8].drop_first() =~= Seq::<u8>::empty());
    if 0 <= i < s.len() && !(0x30 <= s[i] <= 0x39) {
        let d = unsigned_digits(s);
        if s[0] == 0x2B {
            if i >= 1 {
                assert(d[i - 1] == s[i]);
                assert(!is_digit(d[i - 1]));
                assert(!all_digits(d));
            }
        } else {
            assert(d[i] == s[i]);
            assert(!is_digit(d[i]));
            assert(!all_digits(d));
        }
    }
}

/// Slashes around a name are trimmed away, and nothing else is: a name
/// that neither starts nor ends with `/`, wrapped in any number of slashes
/// on either side, trims back to itself.
pub proof fn lemma_trim_slashes_wrapped(name: Seq<u8>, a: nat, b: nat)
    requires
        name.len() > 0,
        !is_slash(name[0]),
        !is_slash(name.last()),
    ensures
        trim_slashes(Seq::new(a, |k: int| 0x2Fu8) + name + Seq::new(b, |k: int| 0x2Fu8)) == name,
    decreases a + b,
{
    let lead = Seq::new(a, |k: int| 0x2Fu8);
    let trail = Seq::new(b, |k: int| 0x2Fu8);
    let s = lead + name + trail;
    if a > 0 {
        let lead1 = Seq::new((a - 1) as nat, |k: int| 0x2Fu8);
        assert(s.drop_first() =~= lead1 + name + trail);
        lemma_trim_slashes_wrapped(name, (a - 1) as nat, b);
        assert(trim_start_slashes(s) == trim_start_slashes(s.drop_first()));
    } else if b > 0 {
        let trail1 = Seq::new((b - 1) as nat, |k: int| 0x2Fu8);
        assert(s =~= name + trail);
        assert(trim_start_slashes(s) == s);
        assert(s.drop_last() =~= lead + name + trail1);
        lemma_trim_slashes_wrapped(name, a, (b - 1) as nat);
        assert(trim_start_slashes(lead + name + trail1) == lead + name + trail1);
        assert(trim_end_slashes(s) == trim_end_slashes(s.drop_last()));
    } else {
        assert(s =~= name);
    }
}

/// The root listing holds one line per disk, in index order: the index in
/// decimal digits followed by a newline byte (`0x0A`); each index reads back
/// as itself, one digit at a time, most significant first.
pub proof fn lemma_listing_lines(n: nat, b: u8, s: Seq<u8>)
    ensures
        listing(0) == Seq::<u8>::empty(),
        listing(n + 1) == listing(n) + decimal(n) + seq![0x0Au8],
        decimal(n).len() > 0,
        forall|i: int| 0 <= i < decimal(n).len() ==> 0x30 <= #[trigger] decimal(n)[i] <= 0x39,
        digits_value(decimal(n)) == n,
        digits_value(s.push(b)) == digits_value(s) * 10 + (b - 0x30) as nat,
{
    lemma_decimal_digits(n);
    assert(decimal(n).push(0x0Au8) =~= decimal(n) + seq![0x0Au8]);
    assert(listing(n + 1) == listing(n) + decimal(n).push(0x0Au8));
    assert(listing(n) + decimal(n).push(0x0Au8) =~= listing(n) + decimal(n) + seq![0x0Au8]);
    assert(s.push(b).drop_last() =~= s);
    assert forall|i: int| 0 <= i < decimal(n).len() implies 0x30 <= #[trigger] decimal(n)[i] <= 0x39 by {
        assert(is_digit(decimal(n)[i]));
    }
}

} // verus!
