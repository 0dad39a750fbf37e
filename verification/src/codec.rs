use vstd::prelude::*;
use vstd::string::*;

use crate::BenchError;

verus! {

// The persisted stores use a small self-describing text format.  A
// non-negative number is written as its decimal digits followed by `'.'`;
// a string is written as its length followed by that many characters; a
// sequence is written as its length followed by its elements.  Decoding
// accepts exactly the strings this module produces, so decode-of-encode is
// the identity (proved below) and anything else is reported as corrupt.

/// The decimal digit character for `d` (digits above nine never arise).
pub open spec fn dig_char(d: nat) -> char {
    if d == 0 {
        '0'
    } else if d == 1 {
        '1'
    } else if d == 2 {
        '2'
    } else if d == 3 {
        '3'
    } else if d == 4 {
        '4'
    } else if d == 5 {
        '5'
    } else if d == 6 {
        '6'
    } else if d == 7 {
        '7'
    } else if d == 8 {
        '8'
    } else {
        '9'
    }
}

/// Whether `c` is a decimal digit character.
pub open spec fn is_dig(c: char) -> bool {
    c == '0' || c == '1' || c == '2' || c == '3' || c == '4' || c == '5' || c == '6' || c == '7'
        || c == '8' || c == '9'
}

/// The value of a decimal digit character (non-digits never arise).
pub open spec fn dig_val(c: char) -> nat {
    if c == '0' {
        0
    } else if c == '1' {
        1
    } else if c == '2' {
        2
    } else if c == '3' {
        3
    } else if c == '4' {
        4
    } else if c == '5' {
        5
    } else if c == '6' {
        6
    } else if c == '7' {
        7
    } else if c == '8' {
        8
    } else {
        9
    }
}

proof fn lemma_dig(d: nat)
    requires
        d < 10,
    ensures
        is_dig(dig_char(d)),
        dig_val(dig_char(d)) == d,
{
}

/// The decimal digits of `n`, most significant first.
pub open spec fn spec_enc_nat(n: nat) -> Seq<char>
    decreases n,
{
    if n < 10 {
        seq![dig_char(n)]
    } else {
        spec_enc_nat(n / 10).push(dig_char(n % 10))
    }
}

/// The wire form of a number: its digits and a terminating `'.'`.
pub open spec fn spec_enc_num(n: nat) -> Seq<char> {
    spec_enc_nat(n).push('.')
}

/// Greedy decoding of a number: consume digits into `acc` (tracking in
/// `seen` whether any digit was read), stop at `'.'`; anything else, a
/// premature end, or a value over `u64::MAX` fails.
pub open spec fn spec_dec_num_rec(s: Seq<char>, acc: u64, seen: bool) -> Option<(u64, Seq<char>)>
    decreases s.len(),
{
    if s.len() == 0 {
        None
    } else if s[0] == '.' {
        if seen {
            Some((acc, s.skip(1)))
        } else {
            None
        }
    } else if is_dig(s[0]) {
        if (acc as nat) * 10 + dig_val(s[0]) <= u64::MAX as nat {
            spec_dec_num_rec(s.skip(1), (acc * 10 + dig_val(s[0]) as u64) as u64, true)
        } else {
            None
        }
    } else {
        None
    }
}

/// Decode one number from the front of `s`.
pub open spec fn spec_dec_num(s: Seq<char>) -> Option<(u64, Seq<char>)> {
    spec_dec_num_rec(s, 0, false)
}

/// Ten to the power `k`.
pub open spec fn pow10(k: nat) -> nat
    decreases k,
{
    if k == 0 {
        1nat
    } else {
        10 * pow10((k - 1) as nat)
    }
}

/// Consuming the digits of `n` multiplies the accumulator by ten once per
/// digit and adds `n`.
proof fn lemma_dec_digits(n: nat, acc: u64, b: bool, x: Seq<char>)
    requires
        (acc as nat) * pow10(spec_enc_nat(n).len()) + n <= u64::MAX as nat,
    ensures
        spec_dec_num_rec(spec_enc_nat(n) + x, acc, b) == spec_dec_num_rec(
            x,
            ((acc as nat) * pow10(spec_enc_nat(n).len()) + n) as u64,
            true,
        ),
    decreases n,
{
    if n < 10 {
        lemma_dig(n);
        let s = spec_enc_nat(n) + x;
        assert(s[0] == dig_char(n));
        assert(pow10(1) == 10 * pow10(0));
        assert(pow10(0) == 1);
        assert(s.skip(1) =~= x);
        assert((acc as nat) * 10 + dig_val(dig_char(n)) <= u64::MAX as nat);
        assert(spec_dec_num_rec(s, acc, b) == spec_dec_num_rec(x, (acc * 10 + n) as u64, true));
    } else {
        let m = n / 10;
        let d = n % 10;
        let l = spec_enc_nat(m).len();
        lemma_dig(d);
        assert(spec_enc_nat(n) =~= spec_enc_nat(m).push(dig_char(d)));
        assert(spec_enc_nat(n).len() == l + 1);
        assert(pow10(l + 1) == 10 * pow10(l));
        assert(10 * m + d == n);
        assert(10 * ((acc as nat) * pow10(l) + m) == (acc as nat) * (10 * pow10(l)) + 10 * m)
            by (nonlinear_arith);
        assert(10 * ((acc as nat) * pow10(l) + m) + d == (acc as nat) * pow10(l + 1) + n);
        assert((acc as nat) * pow10(l) + m <= u64::MAX as nat);
        lemma_dec_digits(m, acc, b, seq![dig_char(d)] + x);
        assert(spec_enc_nat(n) + x =~= spec_enc_nat(m) + (seq![dig_char(d)] + x));
        let a1 = ((acc as nat) * pow10(l) + m) as u64;
        let t = seq![dig_char(d)] + x;
        assert(t[0] == dig_char(d));
        assert(t.skip(1) =~= x);
        assert((a1 as nat) * 10 + dig_val(dig_char(d)) == (acc as nat) * pow10(l + 1) + n);
        assert(spec_dec_num_rec(t, a1, true) == spec_dec_num_rec(
            x,
            ((acc as nat) * pow10(l + 1) + n) as u64,
            true,
        ));
    }
}

/// Decoding undoes encoding for numbers, leaving the rest of the input.
pub proof fn lemma_dec_enc_num(n: u64, rest: Seq<char>)
    ensures
        spec_dec_num(spec_enc_num(n as nat) + rest) == Some((n, rest)),
{
    let x = seq!['.'] + rest;
    assert(pow10(spec_enc_nat(n as nat).len()) >= 1) by {
        lemma_pow10_pos(spec_enc_nat(n as nat).len());
    }
    assert((0 as nat) * pow10(spec_enc_nat(n as nat).len()) + n as nat <= u64::MAX as nat)
        by (nonlinear_arith);
    lemma_dec_digits(n as nat, 0, false, x);
    assert(spec_enc_num(n as nat) + rest =~= spec_enc_nat(n as nat) + x);
    assert((0 as nat) * pow10(spec_enc_nat(n as nat).len()) + n as nat == n as nat)
        by (nonlinear_arith);
    assert(x[0] == '.');
    assert(x.skip(1) =~= rest);
    assert(spec_dec_num_rec(x, n, true) == Some((n, rest)));
}

proof fn lemma_pow10_pos(k: nat)
    ensures
        pow10(k) >= 1,
    decreases k,
{
    if k > 0 {
        lemma_pow10_pos((k - 1) as nat);
    }
}

/// Append the digit character for `d` to `out`.
fn push_digit(d: u64, out: &mut String)
    requires
        d < 10,
    ensures
        final(out)@ == old(out)@ + seq![dig_char(d as nat)],
{
    if d == 0 {
        out.append("0");
        proof {
            reveal_strlit("0");
            assert("0"@ =~= seq![dig_char(0)]);
        }
    } else if d == 1 {
        out.append("1");
        proof {
            reveal_strlit("1");
            assert("1"@ =~= seq![dig_char(1)]);
        }
    } else if d == 2 {
        out.append("2");
        proof {
            reveal_strlit("2");
            assert("2"@ =~= seq![dig_char(2)]);
        }
    } else if d == 3 {
        out.append("3");
        proof {
            reveal_strlit("3");
            assert("3"@ =~= seq![dig_char(3)]);
        }
    } else if d == 4 {
        out.append("4");
        proof {
            reveal_strlit("4");
            assert("4"@ =~= seq![dig_char(4)]);
        }
    } else if d == 5 {
        out.append("5");
        proof {
            reveal_strlit("5");
            assert("5"@ =~= seq![dig_char(5)]);
        }
    } else if d == 6 {
        out.append("6");
        proof {
            reveal_strlit("6");
            assert("6"@ =~= seq![dig_char(6)]);
        }
    } else if d == 7 {
        out.append("7");
        proof {
            reveal_strlit("7");
            assert("7"@ =~= seq![dig_char(7)]);
        }
    } else if d == 8 {
        out.append("8");
        proof {
            reveal_strlit("8");
            assert("8"@ =~= seq![dig_char(8)]);
        }
    } else {
        out.append("9");
        proof {
            reveal_strlit("9");
            assert("9"@ =~= seq![dig_char(9)]);
        }
    }
}

/// Append the decimal digits of `n` to `out`, most significant first.
fn push_digits(n: u64, out: &mut String)
    ensures
        final(out)@ == old(out)@ + spec_enc_nat(n as nat),
    decreases n,
{
    if n >= 10 {
        push_digits(n / 10, out);
    }
    push_digit(n % 10, out);
    proof {
        if n < 10 {
            assert(final(out)@ =~= old(out)@ + spec_enc_nat(n as nat));
        } else {
            assert(final(out)@ =~= old(out)@ + spec_enc_nat(n as nat));
        }
    }
}

/// Append the wire form of `n` (digits and `'.'`) to `out`.
pub(crate) fn enc_num_into(n: u64, out: &mut String)
    ensures
        final(out)@ == old(out)@ + spec_enc_num(n as nat),
{
    push_digits(n, out);
    out.append(".");
    proof {
        reveal_strlit(".");
        assert("."@ =~= seq!['.']);
        assert(final(out)@ =~= old(out)@ + spec_enc_num(n as nat));
    }
}

/// The value of the digit character `c`, or `None` if `c` is no digit.
fn digit_value(c: char) -> (r: Option<u64>)
    ensures
        match r {
            Some(v) => is_dig(c) && v as nat == dig_val(c) && v < 10,
            None => !is_dig(c),
        },
{
    if c == '0' {
        Some(0)
    } else if c == '1' {
        Some(1)
    } else if c == '2' {
        Some(2)
    } else if c == '3' {
        Some(3)
    } else if c == '4' {
        Some(4)
    } else if c == '5' {
        Some(5)
    } else if c == '6' {
        Some(6)
    } else if c == '7' {
        Some(7)
    } else if c == '8' {
        Some(8)
    } else if c == '9' {
        Some(9)
    } else {
        None
    }
}

fn dec_num_rec(s: &str, len: usize, pos: usize, acc: u64, seen: bool) -> (r: Result<
    (u64, usize),
    BenchError,
>)
    requires
        len as nat == s@.len(),
        pos <= len,
    ensures
        match r {
            Ok((v, p)) => pos <= p <= len && spec_dec_num_rec(s@.skip(pos as int), acc, seen)
                == Some((v, s@.skip(p as int))),
            Err(e) => e == BenchError::CorruptState && spec_dec_num_rec(
                s@.skip(pos as int),
                acc,
                seen,
            ) is None,
        },
    decreases len - pos,
{
    if pos == len {
        return Err(BenchError::CorruptState);
    }
    let c = s.get_char(pos);
    proof {
        assert(s@.skip(pos as int)[0] == s@[pos as int]);
    }
    if c == '.' {
        if seen {
            proof {
                assert(s@.skip(pos as int).skip(1) =~= s@.skip(pos as int + 1));
            }
            Ok((acc, pos + 1))
        } else {
            Err(BenchError::CorruptState)
        }
    } else {
        match digit_value(c) {
            None => Err(BenchError::CorruptState),
            Some(v) => {
                if acc <= (u64::MAX - v) / 10 {
                    proof {
                        assert((acc as nat) * 10 <= ((u64::MAX - v) as nat / 10) * 10)
                            by (nonlinear_arith)
                        requires
                            acc as nat <= (u64::MAX - v) as nat / 10,
                        ;
                        assert(((u64::MAX - v) as nat / 10) * 10 <= (u64::MAX - v) as nat);
                        assert(s@.skip(pos as int).skip(1) =~= s@.skip(pos as int + 1));
                    }
                    dec_num_rec(s, len, pos + 1, acc * 10 + v, true)
                } else {
                    proof {
                        assert((acc as nat) * 10 + dig_val(c) > u64::MAX as nat) by (nonlinear_arith)
                        requires
                            acc as nat > (u64::MAX - v) as nat / 10,
                            v < 10,
                            v as nat == dig_val(c),
                        ;
                    }
                    Err(BenchError::CorruptState)
                }
            },
        }
    }
}

/// Decode one number starting at `pos`; on success return it and the
/// position just past its terminating `'.'`.
pub(crate) fn dec_num(s: &str, len: usize, pos: usize) -> (r: Result<(u64, usize), BenchError>)
    requires
        len as nat == s@.len(),
        pos <= len,
    ensures
        match r {
            Ok((v, p)) => pos <= p <= len && spec_dec_num(s@.skip(pos as int)) == Some((
                v,
                s@.skip(p as int),
            )),
            Err(e) => e == BenchError::CorruptState && spec_dec_num(s@.skip(pos as int)) is None,
        },
{
    dec_num_rec(s, len, pos, 0, false)
}

/// The wire form of a string: its length, then its characters.
pub open spec fn spec_enc_str(t: Seq<char>) -> Seq<char> {
    spec_enc_num(t.len()) + t
}

/// Decode one string from the front of `s`.
pub open spec fn spec_dec_str(s: Seq<char>) -> Option<(Seq<char>, Seq<char>)> {
    match spec_dec_num(s) {
        None => None,
        Some((n, r)) => if n as nat <= r.len() {
            Some((r.take(n as int), r.skip(n as int)))
        } else {
            None
        },
    }
}

/// Decoding undoes encoding for strings, leaving the rest of the input.
pub proof fn lemma_dec_enc_str(t: Seq<char>, rest: Seq<char>)
    requires
        t.len() <= u64::MAX as nat,
    ensures
        spec_dec_str(spec_enc_str(t) + rest) == Some((t, rest)),
{
    let n = t.len() as u64;
    lemma_dec_enc_num(n, t + rest);
    assert(spec_enc_str(t) + rest =~= spec_enc_num(n as nat) + (t + rest));
    assert((t + rest).take(n as int) =~= t);
    assert((t + rest).skip(n as int) =~= rest);
}

/// The wire form of a sample sequence's elements, in order.
pub open spec fn spec_enc_nums(v: Seq<u64>) -> Seq<char>
    decreases v.len(),
{
    if v.len() == 0 {
        Seq::empty()
    } else {
        spec_enc_num(v[0] as nat) + spec_enc_nums(v.skip(1))
    }
}

/// Decode `count` numbers from the front of `s`.
pub open spec fn spec_dec_nums(s: Seq<char>, count: u64) -> Option<(Seq<u64>, Seq<char>)>
    decreases count,
{
    if count == 0 {
        Some((Seq::empty(), s))
    } else {
        match spec_dec_num(s) {
            None => None,
            Some((x, r)) => match spec_dec_nums(r, (count - 1) as u64) {
                None => None,
                Some((xs, r2)) => Some((seq![x] + xs, r2)),
            },
        }
    }
}

/// Decoding undoes encoding for sample sequences, leaving the rest.
pub proof fn lemma_dec_enc_nums(v: Seq<u64>, rest: Seq<char>)
    requires
        v.len() <= u64::MAX as nat,
    ensures
        spec_dec_nums(spec_enc_nums(v) + rest, v.len() as u64) == Some((v, rest)),
    decreases v.len(),
{
    if v.len() == 0 {
        assert(spec_enc_nums(v) + rest =~= rest);
    } else {
        assert(spec_enc_nums(v) + rest =~= spec_enc_num(v[0] as nat) + (spec_enc_nums(v.skip(1))
            + rest));
        lemma_dec_enc_num(v[0], spec_enc_nums(v.skip(1)) + rest);
        lemma_dec_enc_nums(v.skip(1), rest);
        assert(seq![v[0]] + v.skip(1) =~= v);
    }
}

/// Append the wire form of `t` (length, then characters) to `out`.
pub(crate) fn enc_str_into(t: &String, out: &mut String)
    ensures
        final(out)@ == old(out)@ + spec_enc_str(t@),
{
    let l = t.as_str().unicode_len();
    enc_num_into(l as u64, out);
    out.append(t.as_str());
    proof {
        assert(final(out)@ =~= old(out)@ + spec_enc_str(t@));
    }
}

/// Decode one string starting at `pos`; on success return it and the
/// position just past it.
pub(crate) fn dec_str(s: &str, len: usize, pos: usize) -> (r: Result<(String, usize), BenchError>)
    requires
        len as nat == s@.len(),
        pos <= len,
    ensures
        match r {
            Ok(tp) => pos <= tp.1 <= len && spec_dec_str(s@.skip(pos as int)) == Some((
                tp.0@,
                s@.skip(tp.1 as int),
            )),
            Err(e) => e == BenchError::CorruptState && spec_dec_str(s@.skip(pos as int)) is None,
        },
{
    match dec_num(s, len, pos) {
        Err(e) => Err(e),
        Ok((n, p1)) => {
            proof {
                assert(s@.skip(p1 as int).len() == len - p1);
            }
            if n > (len - p1) as u64 {
                Err(BenchError::CorruptState)
            } else {
                let nn = n as usize;
                let sub = s.substring_char(p1, p1 + nn);
                let t = String::from_str(sub);
                proof {
                    assert(s@.skip(p1 as int).take(n as int) =~= s@.subrange(
                        p1 as int,
                        p1 + n as int,
                    ));
                    assert(s@.skip(p1 as int).skip(n as int) =~= s@.skip(p1 + n as int));
                }
                Ok((t, p1 + nn))
            }
        },
    }
}

/// Append the wire form of each sample from index `i` on to `out`.
pub(crate) fn enc_nums_from(v: &Vec<u64>, i: usize, out: &mut String)
    requires
        i <= v@.len(),
    ensures
        final(out)@ == old(out)@ + spec_enc_nums(v@.skip(i as int)),
    decreases v@.len() - i,
{
    if i < v.len() {
        enc_num_into(v[i], out);
        enc_nums_from(v, i + 1, out);
        proof {
            assert(v@.skip(i as int)[0] == v@[i as int]);
            assert(v@.skip(i as int).skip(1) =~= v@.skip(i as int + 1));
            assert(final(out)@ =~= old(out)@ + spec_enc_nums(v@.skip(i as int)));
        }
    } else {
        proof {
            assert(spec_enc_nums(v@.skip(i as int)).len() == 0);
            assert(final(out)@ =~= old(out)@ + spec_enc_nums(v@.skip(i as int)));
        }
    }
}

/// Decode `count` numbers starting at `pos`.
pub(crate) fn dec_nums(s: &str, len: usize, pos: usize, count: u64) -> (r: Result<
    (Vec<u64>, usize),
    BenchError,
>)
    requires
        len as nat == s@.len(),
        pos <= len,
    ensures
        match r {
            Ok(vp) => pos <= vp.1 <= len && spec_dec_nums(s@.skip(pos as int), count) == Some((
                vp.0@,
                s@.skip(vp.1 as int),
            )),
            Err(e) => e == BenchError::CorruptState && spec_dec_nums(
                s@.skip(pos as int),
                count,
            ) is None,
        },
    decreases count,
{
    if count == 0 {
        let v: Vec<u64> = Vec::new();
        proof {
            assert(v@ =~= Seq::<u64>::empty());
        }
        Ok((v, pos))
    } else {
        match dec_num(s, len, pos) {
            Err(e) => Err(e),
            Ok((x, p1)) => {
                match dec_nums(s, len, p1, count - 1) {
                    Err(e) => Err(e),
                    Ok((mut v, p2)) => {
                        let ghost pre = v@;
                        v.insert(0, x);
                        proof {
                            assert(v@ =~= seq![x] + pre);
                        }
                        Ok((v, p2))
                    },
                }
            },
        }
    }
}

} // verus!
