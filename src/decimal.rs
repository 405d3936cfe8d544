use vstd::prelude::*;

verus! {

/// The ASCII decimal text of `n`, without leading zeros.
pub open spec fn decimal(n: nat) -> Seq<u8>
    decreases n,
{
    if n < 10 {
        seq![(48 + n) as u8]
    } else {
        decimal(n / 10).push((48 + n % 10) as u8)
    }
}

pub open spec fn is_digit(b: u8) -> bool {
    48 <= b <= 57
}

pub open spec fn all_digits(s: Seq<u8>) -> bool {
    forall|i: int| 0 <= i < s.len() ==> is_digit(#[trigger] s[i])
}

/// The number that a run of ASCII digits spells.
pub open spec fn value_of(s: Seq<u8>) -> nat
    decreases s.len(),
{
    if s.len() == 0 {
        0
    } else {
        value_of(s.drop_last()) * 10 + (s.last() - 48) as nat
    }
}

/// What parsing `s` as a decimal `u32` gives: a value only for a non-empty
/// run of digits whose value fits.
pub open spec fn parse_spec(s: Seq<u8>) -> Option<u32> {
    if s.len() > 0 && all_digits(s) && value_of(s) <= u32::MAX {
        Some(value_of(s) as u32)
    } else {
        None
    }
}

/// A longer run of digits never spells a smaller number.
pub proof fn lemma_value_prefix(s: Seq<u8>, i: int)
    requires
        all_digits(s),
        0 <= i <= s.len(),
    ensures
        value_of(s.take(i)) <= value_of(s),
    decreases s.len(),
{
    if i < s.len() {
        let d = s.drop_last();
        assert(d.take(i) =~= s.take(i));
        lemma_value_prefix(d, i);
    } else {
        assert(s.take(i) =~= s);
    }
}

/// Decimal text reads back as the number it was made from.
pub proof fn lemma_decimal_round_trip(n: nat)
    ensures
        decimal(n).len() > 0,
        all_digits(decimal(n)),
        value_of(decimal(n)) == n,
    decreases n,
{
    if n < 10 {
        let s = decimal(n);
        assert(s.drop_last() =~= Seq::<u8>::empty());
        assert(value_of(s.drop_last()) == 0);
        assert(s.last() == (48 + n) as u8);
        assert(value_of(s) == n);
    } else {
        lemma_decimal_round_trip(n / 10);
        let s = decimal(n);
        assert(s.drop_last() =~= decimal(n / 10));
        assert(s.last() == (48 + n % 10) as u8);
        assert(((48 + n % 10) as u8) - 48 == n % 10);
        assert((n / 10) * 10 + n % 10 == n);
        assert(value_of(s) == value_of(s.drop_last()) * 10 + (s.last() - 48) as nat);
    }
}

/// The process id file's content: the decimal text of `n`.
pub fn decimal_text(n: u32) -> (r: Vec<u8>)
    ensures
        r@ == decimal(n as nat),
{
    let mut r: Vec<u8> = Vec::new();
    let mut v: u32 = n;
    assert(decimal(n as nat) =~= decimal(v as nat) + r@);
    while v >= 10
        invariant
            decimal(n as nat) == decimal(v as nat) + r@,
        decreases v,
    {
        let ghost before = r@;
        r.insert(0, (v % 10) as u8 + 48);
        assert(decimal(v as nat) == decimal((v / 10) as nat).push((48 + v % 10) as u8));
        assert(decimal(v as nat) + before =~= decimal((v / 10) as nat) + r@);
        v = v / 10;
    }
    let ghost before = r@;
    r.insert(0, v as u8 + 48);
    assert(r@ =~= decimal(v as nat) + before);
    r
}

/// Reads a decimal `u32` from ASCII digits.
pub fn parse_decimal(s: &Vec<u8>) -> (r: Option<u32>)
    ensures
        r == parse_spec(s@),
{
    if s.len() == 0 {
        return None;
    }
    let mut acc: u64 = 0;
    let mut i: usize = 0;
    assert(s@.take(0) =~= Seq::<u8>::empty());
    while i < s.len()
        invariant
            0 <= i <= s@.len(),
            all_digits(s@.take(i as int)),
            acc == value_of(s@.take(i as int)),
            acc <= u32::MAX,
        decreases s@.len() - i,
    {
        let b = s[i];
        if b < 48 || b > 57 {
            assert(!is_digit(s@[i as int]));
            return None;
        }
        let next = acc * 10 + (b - 48) as u64;
        assert(s@.take(i + 1).drop_last() =~= s@.take(i as int));
        assert(next == value_of(s@.take(i + 1)));
        assert(all_digits(s@.take(i + 1))) by {
            assert forall|k: int| 0 <= k < i + 1 implies is_digit(#[trigger] s@.take(i + 1)[k]) by {
                if k < i {
                    assert(s@.take(i + 1)[k] == s@.take(i as int)[k]);
                }
            }
        }
        if next > u32::MAX as u64 {
            proof {
                if all_digits(s@) {
                    lemma_value_prefix(s@, i + 1);
                }
            }
            return None;
        }
        acc = next;
        i = i + 1;
    }
    assert(s@.take(s@.len() as int) =~= s@);
    Some(acc as u32)
}

/// Parsing the decimal text of a `u32` gives that number back.
pub proof fn lemma_parse_decimal_text(n: u32)
    ensures
        parse_spec(decimal(n as nat)) == Some(n),
{
    lemma_decimal_round_trip(n as nat);
}

} // verus!
