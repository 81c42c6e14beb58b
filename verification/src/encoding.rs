//! Decimal numerals over byte strings, and small helpers for reading and
//! writing the library's textual encodings (the persisted settings object
//! and release version tags).

use vstd::prelude::*;

verus! {

/// An ASCII decimal digit.
pub open spec fn is_digit(b: u8) -> bool {
    48 <= b <= 57
}

/// Every byte of `s` is an ASCII decimal digit.
pub open spec fn all_digits(s: Seq<u8>) -> bool {
    forall|i: int| 0 <= i < s.len() ==> is_digit(#[trigger] s[i])
}

/// `t` cannot extend a digit run: it is empty or starts with a non-digit.
pub open spec fn run_boundary(t: Seq<u8>) -> bool {
    t.len() == 0 || !is_digit(t[0])
}

/// The canonical decimal numeral of `n`: most significant digit first,
/// no leading zeros, and `0` written as the single digit `0`.
pub open spec fn dec_digits(n: nat) -> Seq<u8>
    decreases n,
{
    if n < 10 {
        seq![(n + 48) as u8]
    } else {
        dec_digits(n / 10) + seq![((n % 10) + 48) as u8]
    }
}

/// The number denoted by a digit string (most significant digit first).
pub open spec fn dec_value(s: Seq<u8>) -> nat
    decreases s.len(),
{
    if s.len() == 0 {
        0
    } else {
        (dec_value(s.drop_last()) * 10 + (s.last() - 48)) as nat
    }
}

/// At offset `start` of `s` stands the canonical numeral of `v`, ended by
/// the end of `s` or by a non-digit byte.
pub open spec fn digit_run_at(s: Seq<u8>, start: int, v: u64) -> bool {
    &&& 0 <= start
    &&& start + dec_digits(v as nat).len() <= s.len()
    &&& s.subrange(start, start + dec_digits(v as nat).len() as int) == dec_digits(v as nat)
    &&& run_boundary(s.skip(start + dec_digits(v as nat).len() as int))
}

/// Canonical numerals are non-empty digit strings.
pub proof fn lemma_dec_digits_shape(n: nat)
    ensures
        dec_digits(n).len() >= 1,
        all_digits(dec_digits(n)),
    decreases n,
{
    if n >= 10 {
        lemma_dec_digits_shape(n / 10);
    }
}

/// Reading back the canonical numeral of `n` yields `n`.
pub proof fn lemma_dec_value_of_digits(n: nat)
    ensures
        dec_value(dec_digits(n)) == n,
    decreases n,
{
    if n < 10 {
        let d = dec_digits(n);
        assert(d == seq![(n + 48) as u8]);
        assert((n + 48) as u8 == n + 48);
        assert(d.drop_last() =~= Seq::<u8>::empty());
        assert(dec_value(d.drop_last()) == 0);
        assert(dec_value(d) == n);
    } else {
        lemma_dec_value_of_digits(n / 10);
        let d = dec_digits(n);
        assert(d.drop_last() =~= dec_digits(n / 10));
        assert(d.last() == ((n % 10) + 48) as u8);
        assert(((n % 10) + 48) as u8 == (n % 10) + 48);
        assert((n / 10) * 10 + n % 10 == n) by (nonlinear_arith);
        assert(dec_value(d) == n);
    }
}

/// The value of a digit-string prefix never exceeds the value of the whole.
pub proof fn lemma_dec_value_prefix_le(s: Seq<u8>, m: int)
    requires
        all_digits(s),
        0 <= m <= s.len(),
    ensures
        dec_value(s.subrange(0, m)) <= dec_value(s),
    decreases s.len(),
{
    if m == s.len() {
        assert(s.subrange(0, m) =~= s);
    } else {
        let s0 = s.drop_last();
        assert(s.subrange(0, m) =~= s0.subrange(0, m));
        lemma_dec_value_prefix_le(s0, m);
        assert(is_digit(s.last()));
        assert(dec_value(s) == dec_value(s0) * 10 + (s.last() - 48));
        assert(dec_value(s0) * 10 >= dec_value(s0));
    }
}

/// Concatenation of byte strings is associative.
pub proof fn lemma_add_assoc(a: Seq<u8>, b: Seq<u8>, c: Seq<u8>)
    ensures
        (a + b) + c == a + (b + c),
{
    assert((a + b) + c =~= a + (b + c));
}

/// Splits a decomposition of a suffix of `s` into a subrange fact and a
/// shorter suffix fact.
pub proof fn lemma_skip_decompose(s: Seq<u8>, p: int, a: Seq<u8>, b: Seq<u8>)
    requires
        0 <= p <= s.len(),
        s.skip(p) == a + b,
    ensures
        p + a.len() + b.len() == s.len(),
        s.subrange(p, p + a.len()) == a,
        s.skip(p + a.len()) == b,
{
    assert(s.skip(p).len() == s.len() - p);
    assert(s.subrange(p, p + a.len()) =~= a) by {
        assert(forall|i: int|
            0 <= i < a.len() ==> s.subrange(p, p + a.len())[i] == s.skip(p)[i] && (a + b)[i]
                == a[i]);
    }
    assert(s.skip(p + a.len()) =~= b) by {
        assert(forall|i: int|
            0 <= i < b.len() ==> s.skip(p + a.len())[i] == s.skip(p)[a.len() + i] && (a
                + b)[a.len() + i] == b[i]);
    }
}

/// A suffix that opens with the canonical numeral of `v`, ended by a run
/// boundary, is a digit run at that offset.
pub proof fn lemma_digit_run_at_intro(s: Seq<u8>, p: int, v: u64, t: Seq<u8>)
    requires
        0 <= p <= s.len(),
        s.skip(p) == dec_digits(v as nat) + t,
        run_boundary(t),
    ensures
        digit_run_at(s, p, v),
{
    lemma_skip_decompose(s, p, dec_digits(v as nat), t);
}

/// Reads the literal `pat` at offset `start` of `bytes`; `None` exactly when
/// `pat` does not stand there.
pub fn eat_lit(bytes: &Vec<u8>, start: usize, pat: &Vec<u8>) -> (r: Option<usize>)
    requires
        start <= bytes@.len(),
    ensures
        match r {
            Some(end) => end == start + pat@.len() && end <= bytes@.len() && bytes@.subrange(
                start as int,
                end as int,
            ) == pat@,
            None => !(start + pat@.len() <= bytes@.len() && bytes@.subrange(
                start as int,
                start + pat@.len(),
            ) == pat@),
        },
{
    let blen = bytes.len();
    if pat.len() > blen - start {
        return None;
    }
    let mut j: usize = 0;
    while j < pat.len()
        invariant
            blen == bytes@.len(),
            start + pat@.len() <= blen,
            0 <= j <= pat@.len(),
            forall|k: int| 0 <= k < j ==> bytes@[start + k] == pat@[k],
        decreases pat@.len() - j,
    {
        if bytes[start + j] != pat[j] {
            proof {
                let sub = bytes@.subrange(start as int, start + pat@.len());
                assert(sub[j as int] == bytes@[start + j]);
            }
            return None;
        }
        j += 1;
    }
    proof {
        assert(bytes@.subrange(start as int, start + pat@.len()) =~= pat@);
    }
    Some(start + pat.len())
}

/// Compares two byte strings for equality of contents.
pub fn eq_bytes(a: &Vec<u8>, b: &Vec<u8>) -> (r: bool)
    ensures
        r == (a@ == b@),
{
    if a.len() != b.len() {
        return false;
    }
    let mut i: usize = 0;
    while i < a.len()
        invariant
            a@.len() == b@.len(),
            0 <= i <= a@.len(),
            forall|k: int| 0 <= k < i ==> a@[k] == b@[k],
        decreases a@.len() - i,
    {
        if a[i] != b[i] {
            return false;
        }
        i += 1;
    }
    proof {
        assert(a@ =~= b@);
    }
    true
}

/// Appends the canonical decimal numeral of `n` to `out`.
pub fn push_dec_u64(out: &mut Vec<u8>, n: u64)
    ensures
        final(out)@ == old(out)@ + dec_digits(n as nat),
    decreases n,
{
    if n < 10 {
        out.push((n as u8) + 48);
        proof {
            assert(out@ =~= old(out)@ + dec_digits(n as nat));
        }
    } else {
        push_dec_u64(out, n / 10);
        out.push(((n % 10) as u8) + 48);
        proof {
            assert((n / 10) as nat == (n as nat) / 10);
            assert((n % 10) as nat == (n as nat) % 10);
            assert(out@ =~= old(out)@ + dec_digits(n as nat));
        }
    }
}

/// Reads a run of decimal digits at offset `start` of `bytes`. Whenever the
/// canonical numeral of some `v: u64` stands there, ended by the end of the
/// input or a non-digit, the call returns exactly that value and the offset
/// past its digits.
pub fn scan_dec_u64(bytes: &Vec<u8>, start: usize) -> (r: Option<(u64, usize)>)
    requires
        start <= bytes@.len(),
    ensures
        forall|v: u64| #[trigger]
            digit_run_at(bytes@, start as int, v) ==> (r matches Some(p) && p.0 == v && p.1
                == start + dec_digits(v as nat).len()),
        r matches Some(p) ==> start < p.1 <= bytes@.len(),
{
    let len = bytes.len();
    if start >= len || bytes[start] < 48 || bytes[start] > 57 {
        proof {
            assert forall|v: u64| !digit_run_at(bytes@, start as int, v) by {
                if digit_run_at(bytes@, start as int, v) {
                    lemma_dec_digits_shape(v as nat);
                    let d = dec_digits(v as nat);
                    assert(bytes@.subrange(start as int, start + d.len())[0] == bytes@[start as int]);
                    assert(is_digit(d[0]));
                }
            }
        }
        return None;
    }
    let mut i: usize = start;
    let mut v: u64 = 0;
    while i < len && 48 <= bytes[i] && bytes[i] <= 57
        invariant
            start <= i <= len,
            len == bytes@.len(),
            48 <= bytes@[start as int] <= 57,
            all_digits(bytes@.subrange(start as int, i as int)),
            v as nat == dec_value(bytes@.subrange(start as int, i as int)),
        decreases len - i,
    {
        let d: u64 = (bytes[i] - 48) as u64;
        if v > (u64::MAX - d) / 10 {
            proof {
                let scanned = bytes@.subrange(start as int, i + 1);
                assert(scanned.drop_last() =~= bytes@.subrange(start as int, i as int));
                assert(scanned.last() == bytes@[i as int]);
                assert(dec_value(scanned) == (v as nat) * 10 + d);
                assert((v as nat) * 10 + d > u64::MAX) by (nonlinear_arith)
                    requires
                        v > (u64::MAX - d) / 10,
                        d <= 9,
                ;
                assert forall|w: u64| !digit_run_at(bytes@, start as int, w) by {
                    if digit_run_at(bytes@, start as int, w) {
                        lemma_dec_digits_shape(w as nat);
                        let dd = dec_digits(w as nat);
                        let end = start + dd.len();
                        if end <= i {
                            assert(!is_digit(bytes@.skip(end)[0]));
                            assert(bytes@.skip(end)[0] == bytes@[end]);
                            if end < i {
                                assert(bytes@.subrange(start as int, i as int)[end - start]
                                    == bytes@[end]);
                            }
                            assert(false);
                        }
                        assert(end >= i + 1);
                        assert(scanned =~= dd.subrange(0, i + 1 - start)) by {
                            assert(forall|k: int|
                                0 <= k < i + 1 - start ==> scanned[k] == bytes@[start + k]
                                    && dd[k] == bytes@.subrange(start as int, end as int)[k]);
                        }
                        lemma_dec_value_prefix_le(dd, i + 1 - start);
                        lemma_dec_value_of_digits(w as nat);
                        assert(dec_value(scanned) <= w as nat);
                    }
                }
            }
            return None;
        }
        proof {
            assert(v * 10 + d <= u64::MAX) by (nonlinear_arith)
                requires
                    v <= (u64::MAX - d) / 10,
                    d <= 9,
            ;
        }
        let ghost prev = bytes@.subrange(start as int, i as int);
        v = v * 10 + d;
        i += 1;
        proof {
            let scanned = bytes@.subrange(start as int, i as int);
            assert(scanned.drop_last() =~= prev);
            assert(scanned.last() == bytes@[i - 1]);
        }
    }
    proof {
        let scanned = bytes@.subrange(start as int, i as int);
        assert(i > start);
        assert(run_boundary(bytes@.skip(i as int))) by {
            if i < len {
                assert(bytes@.skip(i as int)[0] == bytes@[i as int]);
            }
        }
        assert forall|w: u64| #[trigger] digit_run_at(bytes@, start as int, w) implies v == w && i
            == start + dec_digits(w as nat).len() by {
            lemma_dec_digits_shape(w as nat);
            let dd = dec_digits(w as nat);
            let end = start + dd.len();
            if end <= i {
                if end < i {
                    assert(!is_digit(bytes@.skip(end)[0]));
                    assert(bytes@.skip(end)[0] == bytes@[end]);
                    assert(bytes@.subrange(start as int, i as int)[end - start] == bytes@[end]);
                    assert(false);
                }
            } else {
                assert(end > i);
                assert(end <= bytes@.len());
                assert(dd[i - start] == bytes@.subrange(start as int, end as int)[i - start]);
                assert(dd[i - start] == bytes@[i as int]);
                assert(is_digit(dd[i - start]));
                assert(i < len);
                assert(false);
            }
            assert(end == i);
            assert(scanned =~= dd) by {
                assert(forall|k: int|
                    0 <= k < dd.len() ==> dd[k] == bytes@.subrange(start as int, end as int)[k]);
            }
            lemma_dec_value_of_digits(w as nat);
        }
    }
    Some((v, i))
}

} // verus!
