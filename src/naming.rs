//! File names of shard container files.
use vstd::prelude::*;
use crate::text::{push_char, chars_of};

verus! {

/// Width to which shard numbers are padded with zeros.
pub const NUMBER_WIDTH: usize = 5;

/// The decimal digit character for `d < 10`.
pub open spec fn digit_char(d: nat) -> char {
    if d == 0 { '0' }
    else if d == 1 { '1' }
    else if d == 2 { '2' }
    else if d == 3 { '3' }
    else if d == 4 { '4' }
    else if d == 5 { '5' }
    else if d == 6 { '6' }
    else if d == 7 { '7' }
    else if d == 8 { '8' }
    else { '9' }
}

/// The decimal digits of `n`, most significant first, with no leading zeros.
pub open spec fn decimal(n: nat) -> Seq<char>
    decreases n,
{
    if n < 10 {
        seq![digit_char(n)]
    } else {
        decimal(n / 10).push(digit_char(n % 10))
    }
}

/// `n` in decimal, padded on the left with zeros to at least `NUMBER_WIDTH` digits.
pub open spec fn padded(n: nat) -> Seq<char> {
    let d = decimal(n);
    if d.len() < NUMBER_WIDTH {
        Seq::new((NUMBER_WIDTH - d.len()) as nat, |i: int| '0') + d
    } else {
        d
    }
}

/// `data-{index:05}-of-{total:05}.{ext}`.
pub open spec fn shard_filename_spec(index: nat, total: nat, ext: Seq<char>) -> Seq<char> {
    seq!['d', 'a', 't', 'a', '-'] + padded(index) + seq!['-', 'o', 'f', '-'] + padded(total)
        + seq!['.'] + ext
}

fn digit_of(d: usize) -> (c: char)
    requires
        d < 10,
    ensures
        c == digit_char(d as nat),
{
    if d == 0 { '0' }
    else if d == 1 { '1' }
    else if d == 2 { '2' }
    else if d == 3 { '3' }
    else if d == 4 { '4' }
    else if d == 5 { '5' }
    else if d == 6 { '6' }
    else if d == 7 { '7' }
    else if d == 8 { '8' }
    else { '9' }
}

fn push_decimal(s: &mut String, n: usize)
    ensures
        final(s)@ == old(s)@ + decimal(n as nat),
    decreases n,
{
    if n >= 10 {
        push_decimal(s, n / 10);
    }
    push_char(s, digit_of(n % 10));
    assert(final(s)@ =~= old(s)@ + decimal(n as nat));
}

fn decimal_len(n: usize) -> (r: usize)
    ensures
        r == decimal(n as nat).len(),
    decreases n,
{
    if n < 10 {
        1
    } else {
        proof { lemma_decimal_len_bound((n / 10) as nat); }
        decimal_len(n / 10) + 1
    }
}

proof fn lemma_decimal_len_bound(n: nat)
    ensures
        decimal(n).len() <= n + 1,
    decreases n,
{
    if n >= 10 {
        lemma_decimal_len_bound(n / 10);
    }
}

fn push_padded(s: &mut String, n: usize)
    ensures
        final(s)@ == old(s)@ + padded(n as nat),
{
    let len = decimal_len(n);
    let ghost start = s@;
    if len < NUMBER_WIDTH {
        let zeros: usize = NUMBER_WIDTH - len;
        let mut i: usize = 0;
        while i < zeros
            invariant
                i <= zeros,
                s@ == start + Seq::new(i as nat, |j: int| '0'),
            decreases zeros - i,
        {
            push_char(s, '0');
            assert(Seq::new((i + 1) as nat, |j: int| '0') =~= Seq::new(i as nat, |j: int| '0').push('0'));
            i = i + 1;
        }
    }
    push_decimal(s, n);
    assert(s@ =~= start + padded(n as nat));
}

/// The file name of shard `index` of `total`: `data-{index:05}-of-{total:05}.{ext}`.
///
/// The name depends on its arguments alone, so producing it again gives the same string.
pub fn shard_filename(index: usize, total: usize, ext: &str) -> (r: String)
    ensures
        r@ == shard_filename_spec(index as nat, total as nat, ext@),
{
    let mut s = String::new();
    push_char(&mut s, 'd');
    push_char(&mut s, 'a');
    push_char(&mut s, 't');
    push_char(&mut s, 'a');
    push_char(&mut s, '-');
    push_padded(&mut s, index);
    push_char(&mut s, '-');
    push_char(&mut s, 'o');
    push_char(&mut s, 'f');
    push_char(&mut s, '-');
    push_padded(&mut s, total);
    push_char(&mut s, '.');
    let e = chars_of(ext);
    crate::text::push_chars(&mut s, e.as_slice(), 0, e.len());
    assert(e@.subrange(0, e@.len() as int) =~= e@);
    assert(s@ =~= shard_filename_spec(index as nat, total as nat, ext@));
    s
}

/// A shard's file name depends on its index, the shard count and the extension
/// alone: making it again for the same values gives the same name.
pub proof fn lemma_filename_stable(index: nat, total: nat, ext: Seq<char>, again_index: nat, again_total: nat)
    requires
        index == again_index,
        total == again_total,
    ensures
        shard_filename_spec(index, total, ext) == shard_filename_spec(again_index, again_total, ext),
        shard_filename_spec(index, total, ext).len() >= 2 * NUMBER_WIDTH + 6 + ext.len(),
{
    lemma_padded_len(index);
    lemma_padded_len(total);
}

proof fn lemma_padded_len(n: nat)
    ensures
        padded(n).len() >= NUMBER_WIDTH,
{
}

/// The number that a digit character stands for (0 for any other character).
pub open spec fn digit_value(c: char) -> nat {
    if c == '1' { 1 }
    else if c == '2' { 2 }
    else if c == '3' { 3 }
    else if c == '4' { 4 }
    else if c == '5' { 5 }
    else if c == '6' { 6 }
    else if c == '7' { 7 }
    else if c == '8' { 8 }
    else if c == '9' { 9 }
    else { 0 }
}

/// The number that a string of decimal digits reads as.
pub open spec fn decimal_value(s: Seq<char>) -> nat
    decreases s.len(),
{
    if s.len() == 0 {
        0
    } else {
        decimal_value(s.drop_last()) * 10 + digit_value(s.last())
    }
}

proof fn lemma_digit_value(d: nat)
    requires
        d < 10,
    ensures
        digit_value(digit_char(d)) == d,
{
    if d == 0 {} else if d == 1 {} else if d == 2 {} else if d == 3 {} else if d == 4 {}
    else if d == 5 {} else if d == 6 {} else if d == 7 {} else if d == 8 {} else {}
}

proof fn lemma_decimal_value(n: nat)
    ensures
        decimal_value(decimal(n)) == n,
    decreases n,
{
    if n < 10 {
        lemma_digit_value(n);
        assert(seq![digit_char(n)].drop_last() =~= Seq::<char>::empty());
        assert(seq![digit_char(n)].last() == digit_char(n));
        assert(decimal_value(Seq::<char>::empty()) == 0);
        assert(decimal(n) == seq![digit_char(n)]);
        assert(decimal_value(decimal(n)) == decimal_value(decimal(n).drop_last()) * 10 + digit_value(decimal(n).last()));
    } else {
        lemma_decimal_value(n / 10);
        lemma_digit_value(n % 10);
        assert(decimal(n).drop_last() =~= decimal(n / 10));
        assert(decimal(n).last() == digit_char(n % 10));
        assert((n / 10) * 10 + n % 10 == n);
        assert(decimal_value(decimal(n)) == decimal_value(decimal(n).drop_last()) * 10 + digit_value(decimal(n).last()));
    }
}

proof fn lemma_zeros_value(k: nat, s: Seq<char>)
    ensures
        decimal_value(Seq::new(k, |i: int| '0') + s) == decimal_value(s),
    decreases s.len() + k,
{
    let z = Seq::new(k, |i: int| '0');
    if s.len() > 0 {
        assert((z + s).drop_last() =~= z + s.drop_last());
        lemma_zeros_value(k, s.drop_last());
    } else if k > 0 {
        assert((z + s).drop_last() =~= Seq::new((k - 1) as nat, |i: int| '0') + s);
        lemma_zeros_value((k - 1) as nat, s);
    } else {
        assert(z + s =~= s);
    }
}

proof fn lemma_padded_value(n: nat)
    ensures
        decimal_value(padded(n)) == n,
{
    lemma_decimal_value(n);
    let d = decimal(n);
    if d.len() < NUMBER_WIDTH {
        lemma_zeros_value((NUMBER_WIDTH - d.len()) as nat, d);
    }
}

/// Shards of one split get different file names: the name gives back the index.
pub proof fn lemma_filename_injective(index: nat, other: nat, total: nat, ext: Seq<char>)
    requires
        shard_filename_spec(index, total, ext) == shard_filename_spec(other, total, ext),
    ensures
        index == other,
{
    let a = shard_filename_spec(index, total, ext);
    let pi = padded(index);
    let pj = padded(other);
    let b = shard_filename_spec(other, total, ext);
    assert(a.len() == 5 + pi.len() + 4 + padded(total).len() + 1 + ext.len());
    assert(b.len() == 5 + pj.len() + 4 + padded(total).len() + 1 + ext.len());
    assert(pi.len() == pj.len());
    assert(a.subrange(5, 5 + pi.len() as int) =~= pi);
    assert(shard_filename_spec(other, total, ext).subrange(5, 5 + pj.len() as int) =~= pj);
    lemma_padded_value(index);
    lemma_padded_value(other);
}

} // verus!

