//! Byte-level text helpers shared by the collector parsers: splitting
//! lines into fields and reading integers.
//!
//! The collectors' inputs are ASCII text files; the helpers work on raw
//! bytes and define their grammar over byte sequences.

use vstd::prelude::*;

verus! {

/// ASCII whitespace, as field separators in tabular text.
pub open spec fn spec_is_ws(b: u8) -> bool {
    b == 32 || b == 9 || b == 10 || b == 11 || b == 12 || b == 13
}

/// Whether `b` is an ASCII whitespace byte.
pub fn is_ws(b: u8) -> (r: bool)
    ensures
        r == spec_is_ws(b),
{
    b == 32 || b == 9 || b == 10 || b == 11 || b == 12 || b == 13
}

/// The whitespace-separated fields of `s`, with `cur` the field read so
/// far: empty fields do not occur.
pub open spec fn spec_fields_acc(s: Seq<u8>, cur: Seq<u8>) -> Seq<Seq<u8>>
    decreases s.len(),
{
    if s.len() == 0 {
        if cur.len() > 0 {
            seq![cur]
        } else {
            Seq::<Seq<u8>>::empty()
        }
    } else if spec_is_ws(s[0]) {
        if cur.len() > 0 {
            seq![cur] + spec_fields_acc(s.drop_first(), Seq::<u8>::empty())
        } else {
            spec_fields_acc(s.drop_first(), Seq::<u8>::empty())
        }
    } else {
        spec_fields_acc(s.drop_first(), cur.push(s[0]))
    }
}

/// The whitespace-separated fields of `s`.
pub open spec fn spec_split_ws(s: Seq<u8>) -> Seq<Seq<u8>> {
    spec_fields_acc(s, Seq::<u8>::empty())
}

/// Splits `s` into its whitespace-separated fields.
pub fn split_ws(s: &Vec<u8>) -> (r: Vec<Vec<u8>>)
    ensures
        r.deep_view() == spec_split_ws(s@),
{
    let mut done: Vec<Vec<u8>> = Vec::new();
    let mut cur: Vec<u8> = Vec::new();
    let mut i: usize = 0;
    proof {
        assert(s@.skip(0) =~= s@);
        assert(done.deep_view() + spec_fields_acc(s@, cur@) =~~= spec_split_ws(s@));
    }
    while i < s.len()
        invariant
            i <= s@.len(),
            done.deep_view() + spec_fields_acc(s@.skip(i as int), cur@) == spec_split_ws(s@),
        decreases s@.len() - i,
    {
        let ghost pre_done = done.deep_view();
        let ghost pre_cur = cur@;
        if is_ws(s[i]) {
            if cur.len() > 0 {
                done.push(cur);
                cur = Vec::new();
            }
        } else {
            cur.push(s[i]);
        }
        proof {
            assert(s@.skip(i as int).drop_first() =~= s@.skip(i + 1));
            assert(s@.skip(i as int)[0] == s@[i as int]);
            if spec_is_ws(s@[i as int]) && pre_cur.len() > 0 {
                assert(done.deep_view() =~~= pre_done.push(pre_cur));
                assert(done.deep_view() + spec_fields_acc(s@.skip(i + 1), cur@) =~~= pre_done + (
                seq![pre_cur] + spec_fields_acc(s@.skip(i + 1), cur@)));
            }
            if spec_is_ws(s@[i as int]) && pre_cur.len() == 0 {
                assert(pre_cur =~= Seq::<u8>::empty());
            }
        }
        i += 1;
    }
    proof {
        assert(s@.skip(s@.len() as int) =~= Seq::<u8>::empty());
    }
    if cur.len() > 0 {
        let ghost pre_done = done.deep_view();
        let ghost pre_cur = cur@;
        done.push(cur);
        proof {
            assert(done.deep_view() =~~= pre_done.push(pre_cur));
            assert(pre_done + seq![pre_cur] =~~= pre_done.push(pre_cur));
        }
    } else {
        proof {
            assert(done.deep_view() + spec_fields_acc(Seq::<u8>::empty(), cur@) =~~= done.deep_view());
        }
    }
    done
}

/// The parts of `s` split at every occurrence of `sep`, with `cur` the
/// part read so far: there is always at least one part, and empty parts
/// occur between adjacent separators.
pub open spec fn spec_parts_acc(s: Seq<u8>, sep: u8, cur: Seq<u8>) -> Seq<Seq<u8>>
    decreases s.len(),
{
    if s.len() == 0 {
        seq![cur]
    } else if s[0] == sep {
        seq![cur] + spec_parts_acc(s.drop_first(), sep, Seq::<u8>::empty())
    } else {
        spec_parts_acc(s.drop_first(), sep, cur.push(s[0]))
    }
}

/// The parts of `s` split at every occurrence of `sep`.
pub open spec fn spec_split_byte(s: Seq<u8>, sep: u8) -> Seq<Seq<u8>> {
    spec_parts_acc(s, sep, Seq::<u8>::empty())
}

/// Splits `s` at every occurrence of `sep`.
pub fn split_byte(s: &Vec<u8>, sep: u8) -> (r: Vec<Vec<u8>>)
    ensures
        r.deep_view() == spec_split_byte(s@, sep),
{
    let mut done: Vec<Vec<u8>> = Vec::new();
    let mut cur: Vec<u8> = Vec::new();
    let mut i: usize = 0;
    proof {
        assert(s@.skip(0) =~= s@);
        assert(done.deep_view() + spec_parts_acc(s@, sep, cur@) =~~= spec_split_byte(s@, sep));
    }
    while i < s.len()
        invariant
            i <= s@.len(),
            done.deep_view() + spec_parts_acc(s@.skip(i as int), sep, cur@) == spec_split_byte(
                s@,
                sep,
            ),
        decreases s@.len() - i,
    {
        let ghost pre_done = done.deep_view();
        let ghost pre_cur = cur@;
        if s[i] == sep {
            done.push(cur);
            cur = Vec::new();
        } else {
            cur.push(s[i]);
        }
        proof {
            assert(s@.skip(i as int).drop_first() =~= s@.skip(i + 1));
            assert(s@.skip(i as int)[0] == s@[i as int]);
            if s@[i as int] == sep {
                assert(done.deep_view() =~~= pre_done.push(pre_cur));
                assert(done.deep_view() + spec_parts_acc(s@.skip(i + 1), sep, cur@) =~~= pre_done
                    + (seq![pre_cur] + spec_parts_acc(s@.skip(i + 1), sep, cur@)));
            }
        }
        i += 1;
    }
    let ghost pre_done = done.deep_view();
    let ghost pre_cur = cur@;
    done.push(cur);
    proof {
        assert(s@.skip(s@.len() as int) =~= Seq::<u8>::empty());
        assert(done.deep_view() =~~= pre_done.push(pre_cur));
        assert(pre_done + seq![pre_cur] =~~= pre_done.push(pre_cur));
    }
    done
}

/// A copy of the byte range `[lo, hi)` of `s`.
pub fn sub_bytes(s: &Vec<u8>, lo: usize, hi: usize) -> (r: Vec<u8>)
    requires
        lo <= hi <= s@.len(),
    ensures
        r@ == s@.subrange(lo as int, hi as int),
{
    let mut r: Vec<u8> = Vec::new();
    let mut i: usize = lo;
    while i < hi
        invariant
            lo <= i <= hi <= s@.len(),
            r@ == s@.subrange(lo as int, i as int),
        decreases hi - i,
    {
        r.push(s[i]);
        proof {
            assert(r@ =~= s@.subrange(lo as int, i + 1));
        }
        i += 1;
    }
    r
}

/// Splitting yields at least one part.
pub proof fn lemma_parts_acc_nonempty(s: Seq<u8>, sep: u8, cur: Seq<u8>)
    ensures
        spec_parts_acc(s, sep, cur).len() >= 1,
    decreases s.len(),
{
    if s.len() > 0 {
        if s[0] == sep {
            lemma_parts_acc_nonempty(s.drop_first(), sep, Seq::<u8>::empty());
        } else {
            lemma_parts_acc_nonempty(s.drop_first(), sep, cur.push(s[0]));
        }
    }
}

/// The value of one digit byte: decimal digits, then lowercase and
/// uppercase hexadecimal letters; 255 marks anything else.
pub open spec fn spec_digit_val(b: u8) -> int {
    if 48 <= b <= 57 {
        b - 48
    } else if 97 <= b <= 102 {
        b - 87
    } else if 65 <= b <= 70 {
        b - 55
    } else {
        255
    }
}

/// Whether every byte of `s` is a digit of the base.
pub open spec fn spec_all_digits(s: Seq<u8>, base: int) -> bool {
    forall|i: int| 0 <= i < s.len() ==> spec_digit_val(#[trigger] s[i]) < base
}

/// The value of a digit sequence in the base.
pub open spec fn spec_digits_val(s: Seq<u8>, base: int) -> int
    decreases s.len(),
{
    if s.len() == 0 {
        0
    } else {
        spec_digits_val(s.drop_last(), base) * base + spec_digit_val(s.last())
    }
}

/// The digits of a signed numeral: everything after one optional
/// leading sign.
pub open spec fn spec_numeral_digits(s: Seq<u8>) -> Seq<u8> {
    if s.len() > 0 && (s[0] == 43 || s[0] == 45) {
        s.drop_first()
    } else {
        s
    }
}

/// Whether a signed numeral is negative.
pub open spec fn spec_numeral_negative(s: Seq<u8>) -> bool {
    s.len() > 0 && s[0] == 45
}

/// The value of a signed numeral in the base: an optional sign, then at
/// least one digit; anything else has no value.
pub open spec fn spec_parse_signed(s: Seq<u8>, base: int) -> Option<int> {
    let ds = spec_numeral_digits(s);
    if ds.len() == 0 || !spec_all_digits(ds, base) {
        Option::None
    } else if spec_numeral_negative(s) {
        Option::Some(-spec_digits_val(ds, base))
    } else {
        Option::Some(spec_digits_val(ds, base))
    }
}

/// The signed 64-bit reading of a numeral in the base: its value when
/// the numeral is well formed and the value fits, nothing otherwise.
pub open spec fn spec_parse_i64(s: Seq<u8>, base: int) -> Option<i64> {
    match spec_parse_signed(s, base) {
        Option::Some(v) => if i64::MIN <= v <= i64::MAX {
            Option::Some(v as i64)
        } else {
            Option::None
        },
        Option::None => Option::None,
    }
}

/// A digit sequence's value is never negative.
proof fn lemma_digits_val_nonneg(s: Seq<u8>, base: int)
    requires
        base >= 1,
        spec_all_digits(s, base),
    ensures
        spec_digits_val(s, base) >= 0,
    decreases s.len(),
{
    if s.len() > 0 {
        assert(spec_all_digits(s.drop_last(), base));
        lemma_digits_val_nonneg(s.drop_last(), base);
    }
}

/// Extending a digit sequence never lowers its value.
pub proof fn lemma_digits_val_monotone(s: Seq<u8>, base: int, j: int)
    requires
        base >= 1,
        spec_all_digits(s, base),
        0 <= j <= s.len(),
    ensures
        spec_digits_val(s, base) >= spec_digits_val(s.subrange(0, j), base),
    decreases s.len() - j,
{
    if j == s.len() {
        assert(s.subrange(0, j) =~= s);
    } else {
        lemma_digits_val_monotone(s, base, j + 1);
        let p = s.subrange(0, j);
        let q = s.subrange(0, j + 1);
        assert(q.drop_last() =~= p);
        assert(spec_all_digits(p, base));
        lemma_digits_val_nonneg(p, base);
        assert(spec_digits_val(q, base) == spec_digits_val(p, base) * base + spec_digit_val(q.last()));
        assert(spec_digits_val(p, base) * base >= spec_digits_val(p, base)) by (nonlinear_arith)
            requires
                spec_digits_val(p, base) >= 0,
                base >= 1,
        ;
    }
}

/// The value of one digit byte.
pub fn digit_val(b: u8) -> (r: u8)
    ensures
        r as int == spec_digit_val(b),
{
    if 48 <= b && b <= 57 {
        b - 48
    } else if 97 <= b && b <= 102 {
        b - 87
    } else if 65 <= b && b <= 70 {
        b - 55
    } else {
        255
    }
}

/// Reads a signed 64-bit integer from `s` in the given base: an
/// optional sign, then at least one digit, and a value in range; any
/// other input reads as nothing.
pub fn parse_i64_radix(s: &Vec<u8>, base: u64) -> (r: Option<i64>)
    requires
        2 <= base <= 16,
    ensures
        r == spec_parse_i64(s@, base as int),
{
    let ghost ds = spec_numeral_digits(s@);
    let mut start: usize = 0;
    let mut neg = false;
    if s.len() > 0 && (s[0] == 43 || s[0] == 45) {
        neg = s[0] == 45;
        start = 1;
    }
    if start >= s.len() {
        proof {
            assert(ds.len() == 0);
        }
        return None;
    }
    let limit: u64 = if neg {
        9223372036854775808
    } else {
        9223372036854775807
    };
    let mut acc: u64 = 0;
    let mut j: usize = start;
    proof {
        assert(ds =~= s@.skip(start as int));
        assert(ds.subrange(0, 0) =~= Seq::<u8>::empty());
    }
    while j < s.len()
        invariant
            2 <= base <= 16,
            start <= j <= s@.len(),
            start == if spec_numeral_negative(s@) || (s@.len() > 0 && s@[0] == 43) { 1int } else { 0int },
            neg == spec_numeral_negative(s@),
            ds == s@.skip(start as int),
            ds.len() == s@.len() - start,
            limit == if neg { 9223372036854775808u64 } else { 9223372036854775807u64 },
            spec_all_digits(ds.subrange(0, j - start), base as int),
            acc == spec_digits_val(ds.subrange(0, j - start), base as int),
            acc <= limit,
        decreases s@.len() - j,
    {
        let d = digit_val(s[j]);
        proof {
            assert(ds[j - start] == s@[j as int]);
        }
        if d as u64 >= base {
            proof {
                assert(spec_digit_val(ds[j - start]) >= base);
                assert(!spec_all_digits(ds, base as int));
            }
            return None;
        }
        proof {
            assert(ds.subrange(0, j - start + 1).drop_last() =~= ds.subrange(0, j - start));
            assert(ds.subrange(0, j - start + 1).last() == ds[j - start]);
        }
        if acc > (limit - d as u64) / base {
            // The digits read so far already exceed the 64-bit range,
            // and further digits can only grow the value.
            proof {
                let pre = ds.subrange(0, j - start);
                let now = ds.subrange(0, j - start + 1);
                assert(spec_digits_val(now, base as int) == acc * base + d) by {
                    assert(now.drop_last() =~= pre);
                };
                assert(acc * base + d > limit) by (nonlinear_arith)
                    requires
                        acc as int > (limit as int - d as int) / base as int,
                        0 <= d as int,
                        (d as int) < base as int,
                        2 <= base as int,
                        d as int <= limit as int,
                ;
                assert(ds =~= spec_numeral_digits(s@));
                if spec_all_digits(ds, base as int) {
                    lemma_digits_val_monotone(ds, base as int, j - start + 1);
                    assert(spec_digits_val(ds, base as int) > limit);
                    if neg {
                        assert(-spec_digits_val(ds, base as int) < i64::MIN);
                    } else {
                        assert(spec_digits_val(ds, base as int) > i64::MAX);
                    }
                }
                assert(spec_parse_i64(s@, base as int) is None);
            }
            return None;
        }
        proof {
            assert(acc * base + d <= limit) by (nonlinear_arith)
                requires
                    acc as int <= (limit as int - d as int) / base as int,
                    0 <= d as int,
                    (d as int) < base as int,
                    2 <= base as int,
                    d as int <= limit as int,
            ;
        }
        acc = acc * base + d as u64;
        j += 1;
    }
    proof {
        assert(ds.subrange(0, ds.len() as int) =~= ds);
    }
    if neg {
        if acc == 9223372036854775808 {
            Some(i64::MIN)
        } else {
            Some(-(acc as i64))
        }
    } else {
        Some(acc as i64)
    }
}

/// Reads a signed 64-bit decimal integer.
pub fn parse_i64_dec(s: &Vec<u8>) -> (r: Option<i64>)
    ensures
        r == spec_parse_i64(s@, 10),
{
    parse_i64_radix(s, 10)
}

/// Reads a signed 64-bit hexadecimal integer.
pub fn parse_i64_hex(s: &Vec<u8>) -> (r: Option<i64>)
    ensures
        r == spec_parse_i64(s@, 16),
{
    parse_i64_radix(s, 16)
}

} // verus!
