//! Conversions between bytes and text that lean on std.
use vstd::prelude::*;
use vstd::utf8::{decode_utf8, valid_utf8};

verus! {

/// Relies on `String::from_utf8`: it accepts exactly the valid UTF-8 byte
/// sequences and decodes them.
#[verifier::external_body]
pub(crate) fn utf8_string(bytes: Vec<u8>) -> (r: Option<String>)
    ensures
        r is Some <==> valid_utf8(bytes@),
        r matches Some(s) ==> s@ == decode_utf8(bytes@),
{
    String::from_utf8(bytes).ok()
}

/// Whether `b` is ASCII white space.
pub open spec fn is_space(b: u8) -> bool {
    b == 32 || b == 10 || b == 13 || b == 9
}

/// Whether `s` begins with `prefix`.
pub open spec fn starts_with(s: Seq<u8>, prefix: Seq<u8>) -> bool {
    prefix.len() <= s.len() && s.subrange(0, prefix.len() as int) == prefix
}

pub fn has_prefix(s: &[u8], prefix: &[u8]) -> (r: bool)
    ensures
        r == starts_with(s@, prefix@),
{
    if prefix.len() > s.len() {
        return false;
    }
    let mut i: usize = 0;
    while i < prefix.len()
        invariant
            i <= prefix@.len() <= s@.len(),
            forall|k: int| 0 <= k < i ==> s@[k] == prefix@[k],
        decreases prefix@.len() - i,
    {
        if s[i] != prefix[i] {
            assert(s@.subrange(0, prefix@.len() as int)[i as int] != prefix@[i as int]);
            return false;
        }
        i = i + 1;
    }
    assert(s@.subrange(0, prefix@.len() as int) =~= prefix@);
    true
}

/// The white-space separated words of `b`, in order.
pub open spec fn tokens(b: Seq<u8>) -> Seq<Seq<u8>>
    decreases b.len(),
{
    if b.len() == 0 {
        Seq::empty()
    } else {
        let t = tokens(b.drop_last());
        let x = b.last();
        if is_space(x) {
            t
        } else if b.len() >= 2 && !is_space(b[b.len() - 2]) {
            t.update(t.len() - 1, t.last().push(x))
        } else {
            t.push(seq![x])
        }
    }
}

/// Splits `b` into its white-space separated words.
pub fn split_tokens(b: &[u8]) -> (r: Vec<Vec<u8>>)
    ensures
        r@.map_values(|v: Vec<u8>| v@) == tokens(b@),
{
    let mut done: Vec<Vec<u8>> = Vec::new();
    let mut cur: Vec<u8> = Vec::new();
    let mut i: usize = 0;
    while i < b.len()
        invariant
            i <= b@.len(),
            cur@.len() > 0 ==> i > 0 && !is_space(b@[i - 1]),
            cur@.len() == 0 ==> i == 0 || is_space(b@[i - 1]),
            tokens(b@.subrange(0, i as int)) == if cur@.len() > 0 {
                done@.map_values(|v: Vec<u8>| v@).push(cur@)
            } else {
                done@.map_values(|v: Vec<u8>| v@)
            },
        decreases b@.len() - i,
    {
        let x = b[i];
        let ghost prev = b@.subrange(0, i as int);
        let ghost next = b@.subrange(0, i + 1);
        assert(next.drop_last() =~= prev);
        if x == 32 || x == 10 || x == 13 || x == 9 {
            if cur.len() > 0 {
                let ghost before = done@;
                done.push(cur);
                assert(done@.map_values(|v: Vec<u8>| v@) =~= before.map_values(|v: Vec<u8>| v@).push(cur@));
                cur = Vec::new();
            }
        } else {
            let ghost dv = done@.map_values(|v: Vec<u8>| v@);
            let ghost cv = cur@;
            cur.push(x);
            proof {
                assert(next.last() == x);
                assert(!is_space(x));
                if cv.len() > 0 {
                    assert(next[next.len() - 2] == b@[i - 1]);
                    assert(tokens(prev) == dv.push(cv));
                    assert(tokens(next) == tokens(prev).update(tokens(prev).len() - 1, tokens(prev).last().push(x)));
                    assert(tokens(next) =~= dv.push(cur@));
                } else {
                    assert(tokens(prev) == dv);
                    assert(cur@ =~= seq![x]);
                    assert(tokens(next) == tokens(prev).push(seq![x]));
                    assert(tokens(next) =~= dv.push(cur@));
                }
            }
        }
        i = i + 1;
    }
    if cur.len() > 0 {
        let ghost before = done@;
        done.push(cur);
        assert(done@.map_values(|v: Vec<u8>| v@) =~= before.map_values(|v: Vec<u8>| v@).push(cur@));
    }
    assert(b@.subrange(0, i as int) =~= b@);
    done
}

/// The pieces of `s` between occurrences of `sep`; there is always at least one.
pub open spec fn split_seq<A>(s: Seq<A>, sep: A) -> Seq<Seq<A>>
    decreases s.len(),
{
    if s.len() == 0 {
        seq![Seq::empty()]
    } else {
        let r = split_seq(s.drop_last(), sep);
        if s.last() == sep {
            r.push(Seq::empty())
        } else {
            r.update(r.len() - 1, r.last().push(s.last()))
        }
    }
}

pub proof fn lemma_split_seq_len<A>(s: Seq<A>, sep: A)
    ensures
        split_seq(s, sep).len() >= 1,
    decreases s.len(),
{
    if s.len() > 0 {
        lemma_split_seq_len(s.drop_last(), sep);
    }
}

/// Splits `b` at each `sep` byte.
pub fn split_bytes(b: &[u8], sep: u8) -> (r: Vec<Vec<u8>>)
    ensures
        r@.map_values(|v: Vec<u8>| v@) == split_seq(b@, sep),
{
    let mut done: Vec<Vec<u8>> = Vec::new();
    let mut cur: Vec<u8> = Vec::new();
    let mut i: usize = 0;
    while i < b.len()
        invariant
            i <= b@.len(),
            split_seq(b@.subrange(0, i as int), sep) == done@.map_values(|v: Vec<u8>| v@).push(cur@),
        decreases b@.len() - i,
    {
        let x = b[i];
        let ghost prev = b@.subrange(0, i as int);
        let ghost next = b@.subrange(0, i + 1);
        assert(next.drop_last() =~= prev);
        if x == sep {
            let ghost before = done@;
            done.push(cur);
            assert(done@.map_values(|v: Vec<u8>| v@) =~= before.map_values(|v: Vec<u8>| v@).push(cur@));
            cur = Vec::new();
        } else {
            cur.push(x);
        }
        i = i + 1;
    }
    let ghost before = done@;
    done.push(cur);
    assert(done@.map_values(|v: Vec<u8>| v@) =~= before.map_values(|v: Vec<u8>| v@).push(cur@));
    assert(b@.subrange(0, i as int) =~= b@);
    done
}

/// The number that the decimal digits `d` spell.
pub open spec fn decimal_value(d: Seq<u8>) -> int
    decreases d.len(),
{
    if d.len() == 0 {
        0
    } else {
        decimal_value(d.drop_last()) * 10 + (d.last() - 48)
    }
}

pub open spec fn all_digits(d: Seq<u8>) -> bool {
    forall|i: int| 0 <= i < d.len() ==> 48 <= #[trigger] d[i] <= 57
}

/// What `u32::from_str` makes of `s`: an optional `+`, then one or more
/// decimal digits whose value fits in a `u32`.
pub open spec fn parsed_u32(s: Seq<u8>) -> Option<u32> {
    let d = if s.len() > 0 && s[0] == 43 { s.drop_first() } else { s };
    if d.len() > 0 && all_digits(d) && decimal_value(d) <= u32::MAX {
        Some(decimal_value(d) as u32)
    } else {
        None
    }
}

proof fn lemma_decimal_nonneg(d: Seq<u8>)
    requires
        all_digits(d),
    ensures
        decimal_value(d) >= 0,
    decreases d.len(),
{
    if d.len() > 0 {
        lemma_decimal_nonneg(d.drop_last());
    }
}

/// Parses an unsigned decimal number as `u32::from_str` does.
pub fn parse_u32(s: &[u8]) -> (r: Option<u32>)
    ensures
        r == parsed_u32(s@),
{
    let start: usize = if s.len() > 0 && s[0] == 43 { 1 } else { 0 };
    let ghost d = if s@.len() > 0 && s@[0] == 43 { s@.drop_first() } else { s@ };
    if start >= s.len() {
        assert(d.len() == 0);
        return None;
    }
    let mut acc: u64 = 0;
    let mut i: usize = start;
    while i < s.len()
        invariant
            start <= i <= s@.len(),
            d == s@.subrange(start as int, s@.len() as int),
            d == if s@.len() > 0 && s@[0] == 43 { s@.drop_first() } else { s@ },
            all_digits(s@.subrange(start as int, i as int)),
            acc as int == if decimal_value(s@.subrange(start as int, i as int)) > u32::MAX {
                u32::MAX + 1
            } else {
                decimal_value(s@.subrange(start as int, i as int))
            },
        decreases s@.len() - i,
    {
        let x = s[i];
        let ghost prev = s@.subrange(start as int, i as int);
        let ghost next = s@.subrange(start as int, i + 1);
        assert(next.drop_last() =~= prev);
        if x < 48 || x > 57 {
            assert(d[i - start] == x);
            assert(!all_digits(d));
            return None;
        }
        proof {
            lemma_decimal_nonneg(prev);
        }
        let v = acc * 10 + (x - 48) as u64;
        acc = if v > 0x1_0000_0000 { 0x1_0000_0000 } else { v };
        i = i + 1;
        proof {
            assert(all_digits(next));
            if decimal_value(prev) > u32::MAX {
                assert(decimal_value(next) > u32::MAX) by (nonlinear_arith)
                    requires decimal_value(next) == decimal_value(prev) * 10 + (x - 48), decimal_value(prev) > u32::MAX, x >= 48;
            }
        }
    }
    assert(s@.subrange(start as int, i as int) =~= d);
    if acc > 0xFFFF_FFFF {
        None
    } else {
        Some(acc as u32)
    }
}

/// The decimal digits of `n`, without leading zeros.
pub open spec fn decimal_digits(n: nat) -> Seq<u8>
    decreases n,
{
    if n < 10 {
        seq![(48 + n) as u8]
    } else {
        decimal_digits(n / 10).push((48 + n % 10) as u8)
    }
}

/// Appends the decimal digits of `n`.
pub fn push_decimal(out: &mut Vec<u8>, n: u32)
    ensures
        final(out)@ == old(out)@ + decimal_digits(n as nat),
    decreases n,
{
    if n >= 10 {
        push_decimal(out, n / 10);
    }
    out.push((48 + n % 10) as u8);
    assert(final(out)@ =~= old(out)@ + decimal_digits(n as nat));
}

} // verus!
