//! Unsigned decimal numerals as they stand in a document: no sign, no
//! leading zero, one byte per digit.

use vstd::prelude::*;

verus! {

/// The byte is one of `0` to `9`.
pub open spec fn is_digit(c: u8) -> bool {
    48 <= c <= 57
}

/// The numeral of `n`.
pub open spec fn digits(n: nat) -> Seq<u8>
    decreases n,
{
    if n < 10 {
        seq![(48 + n) as u8]
    } else {
        digits(n / 10).push((48 + n % 10) as u8)
    }
}

/// The number that a run of digits denotes.
pub open spec fn value(s: Seq<u8>) -> nat
    decreases s.len(),
{
    if s.len() == 0 {
        0
    } else {
        (value(s.drop_last()) * 10 + (s.last() - 48)) as nat
    }
}

/// Every byte of `s` is a digit.
pub open spec fn all_digits(s: Seq<u8>) -> bool {
    forall|k: int| 0 <= k < s.len() ==> is_digit(#[trigger] s[k])
}

/// `s` is a numeral: digits only, at least one, and no leading zero but in `0` itself.
pub open spec fn canonical(s: Seq<u8>) -> bool {
    &&& s.len() > 0
    &&& all_digits(s)
    &&& (s[0] != 48 || s.len() == 1)
}

/// Where the run of digits that starts at `i` ends: the first place from
/// `i` on that holds no digit.
pub open spec fn run_end(b: Seq<u8>, i: int) -> int
    decreases b.len() - i,
{
    if 0 <= i < b.len() && is_digit(b[i]) {
        run_end(b, i + 1)
    } else {
        i
    }
}

/// The numeral that starts at `start`, taken as far as digits go, with its
/// value and the place behind it; `None` where there is no numeral or its
/// value is over `limit`.
pub open spec fn number_at(b: Seq<u8>, start: int, limit: nat) -> Option<(nat, int)> {
    let end = run_end(b, start);
    let s = b.subrange(start, end);
    if 0 <= start <= b.len() && canonical(s) && value(s) <= limit {
        Some((value(s), end))
    } else {
        None
    }
}

/// Ten to the power of `k`.
pub open spec fn pow10(k: nat) -> nat
    decreases k,
{
    if k == 0 {
        1
    } else {
        10 * pow10((k - 1) as nat)
    }
}

/// A number below ten to the power of `k` has at most `k` digits, and every
/// number has at least one.
pub proof fn lemma_digits_len(n: nat, k: nat)
    requires
        k >= 1,
        n < pow10(k),
    ensures
        1 <= digits(n).len() <= k,
    decreases n,
{
    reveal_with_fuel(pow10, 2);
    if n >= 10 {
        if k == 1 {
            assert(pow10(1) == 10);
        } else {
            lemma_digits_len(n / 10, (k - 1) as nat);
        }
    }
}

/// A numeral is canonical and denotes the number it was written for.
pub proof fn lemma_value_of_digits(n: nat)
    ensures
        canonical(digits(n)),
        value(digits(n)) == n,
        n > 0 ==> digits(n)[0] != 48,
    decreases n,
{
    if n < 10 {
        assert(digits(n).drop_last() =~= Seq::<u8>::empty());
        assert(value(digits(n).drop_last()) == 0);
    } else {
        lemma_value_of_digits(n / 10);
        let d = digits(n / 10);
        assert(digits(n).drop_last() =~= d);
        assert(digits(n)[0] == d[0]);
        assert forall|k: int| 0 <= k < digits(n).len() implies is_digit(#[trigger] digits(n)[k]) by {
            if k < d.len() {
                assert(digits(n)[k] == d[k]);
            }
        }
    }
}

/// A canonical numeral is the numeral of its value: no number has two.
pub proof fn lemma_digits_of_value(s: Seq<u8>)
    requires
        canonical(s),
    ensures
        digits(value(s)) == s,
    decreases s.len(),
{
    let t = s.drop_last();
    if s.len() == 1 {
        assert(t =~= Seq::<u8>::empty());
        assert(value(t) == 0);
        assert(is_digit(s[0]));
        assert(digits(value(s)) =~= s);
    } else {
        assert forall|k: int| 0 <= k < t.len() implies is_digit(#[trigger] t[k]) by {
            assert(t[k] == s[k]);
        }
        assert(t[0] == s[0]);
        lemma_digits_of_value(t);
        assert(is_digit(s[s.len() - 1]));
        if value(t) == 0 {
            assert(digits(0)[0] == 48);
        }
        let v = value(s);
        assert(v == value(t) * 10 + (s.last() - 48));
        assert(v / 10 == value(t));
        assert(v % 10 == s.last() - 48);
        assert(digits(v) =~= s);
    }
}

/// The value of a run of digits is at least that of each run it starts with.
pub proof fn lemma_value_grows(s: Seq<u8>, k: int)
    requires
        0 <= k <= s.len(),
        all_digits(s),
    ensures
        value(s.subrange(0, k)) <= value(s),
    decreases s.len(),
{
    if k == s.len() {
        assert(s.subrange(0, k) =~= s);
    } else {
        let t = s.drop_last();
        assert forall|j: int| 0 <= j < t.len() implies is_digit(#[trigger] t[j]) by {
            assert(t[j] == s[j]);
        }
        lemma_value_grows(t, k);
        assert(t.subrange(0, k) =~= s.subrange(0, k));
        assert(is_digit(s[s.len() - 1]));
    }
}

/// A run of digits from `i` to `j`, with no digit at `j`, ends at `j`.
pub proof fn lemma_run_end(b: Seq<u8>, i: int, j: int)
    requires
        0 <= i <= j <= b.len(),
        forall|k: int| i <= k < j ==> is_digit(#[trigger] b[k]),
        j == b.len() || !is_digit(b[j]),
    ensures
        run_end(b, i) == j,
    decreases j - i,
{
    if i < j {
        lemma_run_end(b, i + 1, j);
    }
}

/// A number is read only from its own numeral: what `number_at` takes for
/// `n` is the numeral of `n`, byte for byte.
pub proof fn lemma_number_is_its_numeral(b: Seq<u8>, start: int, limit: nat, n: nat, end: int)
    requires
        number_at(b, start, limit) == Some((n, end)),
    ensures
        b.subrange(start, end) == digits(n),
        n <= limit,
{
    lemma_digits_of_value(b.subrange(start, end));
}

/// Appends the numeral of `n` to `out`.
pub fn write_decimal(out: &mut Vec<u8>, n: u32)
    ensures
        final(out)@ == old(out)@ + digits(n as nat),
    decreases n,
{
    if n >= 10 {
        write_decimal(out, n / 10);
    }
    let d: u8 = (n % 10) as u8;
    out.push(48 + d);
    proof {
        assert(final(out)@ =~= old(out)@ + digits(n as nat));
    }
}

/// Reads the numeral that starts at `start`, as far as digits go.
pub fn read_decimal(b: &[u8], start: usize, limit: u32) -> (r: Option<(u32, usize)>)
    requires
        start <= b@.len(),
    ensures
        match r {
            Some((v, end)) => end <= b@.len() && number_at(b@, start as int, limit as nat) == Some(
                (v as nat, end as int),
            ),
            None => number_at(b@, start as int, limit as nat) is None,
        },
{
    let n: usize = b.len();
    let mut i: usize = start;
    let mut acc: u64 = 0;
    let mut over: bool = false;
    proof {
        assert(b@.subrange(start as int, start as int) =~= Seq::<u8>::empty());
    }
    while i < n && b[i] >= 48 && b[i] <= 57
        invariant
            n == b@.len(),
            start <= i <= n,
            forall|k: int| start <= k < i ==> is_digit(#[trigger] b@[k]),
            run_end(b@, start as int) == run_end(b@, i as int),
            !over ==> acc == value(b@.subrange(start as int, i as int)) && acc <= limit,
            over ==> exists|k: int| start <= k <= i && value(b@.subrange(start as int, k)) > limit,
        decreases n - i,
    {
        let d: u64 = (b[i] - 48) as u64;
        proof {
            lemma_run_end_step(b@, start as int, i as int);
            assert(b@.subrange(start as int, i + 1).drop_last() =~= b@.subrange(
                start as int,
                i as int,
            ));
        }
        if !over {
            let next: u64 = acc * 10 + d;
            if next > limit as u64 {
                over = true;
                proof {
                    assert(value(b@.subrange(start as int, i + 1)) > limit);
                }
            } else {
                acc = next;
            }
        }
        i = i + 1;
    }
    proof {
        lemma_run_end(b@, i as int, i as int);
        let s = b@.subrange(start as int, i as int);
        assert forall|k: int| 0 <= k < s.len() implies is_digit(#[trigger] s[k]) by {
            assert(s[k] == b@[start + k]);
        }
        if over {
            let k = choose|k: int| start <= k <= i && value(b@.subrange(start as int, k)) > limit;
            lemma_value_grows(s, k - start);
            assert(s.subrange(0, k - start) =~= b@.subrange(start as int, k));
        }
    }
    if over || i == start {
        return None;
    }
    if b[start] == 48 && i - start > 1 {
        return None;
    }
    Some((acc as u32, i))
}

/// One more digit at `i` does not move the end of the run that holds it.
proof fn lemma_run_end_step(b: Seq<u8>, start: int, i: int)
    requires
        0 <= start <= i < b.len(),
        is_digit(b[i]),
        run_end(b, start) == run_end(b, i),
    ensures
        run_end(b, start) == run_end(b, i + 1),
{
}

} // verus!
