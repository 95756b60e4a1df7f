//! Canonical text encoding used by the fingerprint records.
//!
//! Every value is written in a self-delimiting form: a number is its decimal
//! digits followed by `:`, a string is its character count followed by the
//! characters themselves, a boolean is `0` or `1`, and an optional value is
//! `-` (absent) or `+` followed by the value.  Encoders and decoders come in
//! pairs whose contracts pin the decoder down exactly on every encoder output,
//! which is what the record round-trip proofs rest on.

use vstd::prelude::*;

verus! {

// ---------------------------------------------------------------------------
// Decimal digits
// ---------------------------------------------------------------------------

pub open spec fn is_digit(c: char) -> bool {
    c == '0' || c == '1' || c == '2' || c == '3' || c == '4' || c == '5' || c == '6' || c == '7'
        || c == '8' || c == '9'
}

pub open spec fn digit_char(d: nat) -> char {
    if d == 0 {
        '0'
    } else if d == 1 {
        '1'
    } else if d == 2 {
        '2'
    } else if d == 3 {
        '3'
    } else if d == 4 {
        '4'
    } else if d == 5 {
        '5'
    } else if d == 6 {
        '6'
    } else if d == 7 {
        '7'
    } else if d == 8 {
        '8'
    } else {
        '9'
    }
}

pub open spec fn char_val(c: char) -> nat {
    if c == '0' {
        0
    } else if c == '1' {
        1
    } else if c == '2' {
        2
    } else if c == '3' {
        3
    } else if c == '4' {
        4
    } else if c == '5' {
        5
    } else if c == '6' {
        6
    } else if c == '7' {
        7
    } else if c == '8' {
        8
    } else {
        9
    }
}

/// The decimal representation of `n`, most significant digit first, without
/// leading zeros (`0` is written as the single digit `0`).
pub open spec fn spec_dec(n: nat) -> Seq<char>
    decreases n,
{
    if n < 10 {
        seq![digit_char(n)]
    } else {
        spec_dec(n / 10).push(digit_char(n % 10))
    }
}

/// The value of a digit string, most significant digit first.
pub open spec fn digits_val(ds: Seq<char>) -> nat
    decreases ds.len(),
{
    if ds.len() == 0 {
        0
    } else {
        digits_val(ds.drop_last()) * 10 + char_val(ds.last())
    }
}

pub proof fn lemma_dec_digits(n: nat)
    ensures
        spec_dec(n).len() >= 1,
        forall|i: int| 0 <= i < spec_dec(n).len() ==> is_digit(#[trigger] spec_dec(n)[i]),
    decreases n,
{
    if n >= 10 {
        lemma_dec_digits(n / 10);
    }
}

pub proof fn lemma_dec_first(n: nat)
    requires
        n >= 1,
    ensures
        spec_dec(n)[0] != '0',
    decreases n,
{
    if n >= 10 {
        lemma_dec_first(n / 10);
        lemma_dec_digits(n / 10);
    }
}

pub proof fn lemma_dec_val(n: nat)
    ensures
        digits_val(spec_dec(n)) == n,
    decreases n,
{
    if n < 10 {
        let ds = spec_dec(n);
        assert(ds.len() == 1);
        assert(ds.last() == digit_char(n));
        assert(ds.drop_last() =~= Seq::<char>::empty());
        assert(digits_val(Seq::<char>::empty()) == 0);
        assert(char_val(digit_char(n)) == n);
    } else {
        lemma_dec_val(n / 10);
        assert(spec_dec(n).drop_last() =~= spec_dec(n / 10));
        assert(spec_dec(n).last() == digit_char(n % 10));
        assert(char_val(digit_char(n % 10)) == n % 10);
    }
}

/// A digit string with a nonzero leading digit has a nonzero value.
pub proof fn lemma_val_positive(ds: Seq<char>)
    requires
        ds.len() >= 1,
        ds[0] != '0',
        is_digit(ds[0]),
    ensures
        digits_val(ds) >= 1,
    decreases ds.len(),
{
    if ds.len() == 1 {
        assert(ds.last() == ds[0]);
        assert(char_val(ds[0]) >= 1);
    } else {
        lemma_val_positive(ds.drop_last());
    }
}

/// The value of every prefix of a digit string is bounded by the value of the
/// whole string.
pub proof fn lemma_val_prefix(ds: Seq<char>, k: int)
    requires
        0 <= k <= ds.len(),
    ensures
        digits_val(ds.take(k)) <= digits_val(ds),
    decreases ds.len() - k,
{
    if k < ds.len() {
        lemma_val_prefix(ds, k + 1);
        assert(ds.take(k + 1).drop_last() =~= ds.take(k));
        assert(digits_val(ds.take(k + 1)) == digits_val(ds.take(k)) * 10 + char_val(
            ds.take(k + 1).last(),
        ));
    } else {
        assert(ds.take(k) =~= ds);
    }
}

/// A nonempty digit string without a leading zero is the decimal
/// representation of its own value: decoding is inverse to encoding.
pub proof fn lemma_canonical(ds: Seq<char>)
    requires
        ds.len() >= 1,
        forall|i: int| 0 <= i < ds.len() ==> is_digit(#[trigger] ds[i]),
        ds.len() == 1 || ds[0] != '0',
    ensures
        ds == spec_dec(digits_val(ds)),
    decreases ds.len(),
{
    if ds.len() == 1 {
        let c = ds[0];
        assert(ds.last() == c);
        assert(ds.drop_last() =~= Seq::<char>::empty());
        assert(digits_val(Seq::<char>::empty()) == 0);
        assert(digits_val(ds) == char_val(c));
        assert(char_val(c) < 10);
        assert(digit_char(char_val(c)) == c);
        assert(ds =~= spec_dec(digits_val(ds)));
    } else {
        let head = ds.drop_last();
        let d = ds.last();
        assert(head[0] == ds[0]);
        assert(forall|i: int| 0 <= i < head.len() ==> is_digit(#[trigger] head[i]));
        lemma_canonical(head);
        lemma_val_positive(head);
        let v = digits_val(ds);
        let hv = digits_val(head);
        assert(v == hv * 10 + char_val(d));
        assert(char_val(d) < 10);
        assert(v >= 10) by (nonlinear_arith)
            requires
                v == hv * 10 + char_val(d),
                hv >= 1,
        ;
        assert(v / 10 == hv && v % 10 == char_val(d)) by (nonlinear_arith)
            requires
                v == hv * 10 + char_val(d),
                char_val(d) < 10,
        ;
        assert(is_digit(d));
        assert(digit_char(char_val(d)) == d);
        assert(spec_dec(v) == spec_dec(hv).push(d));
        assert(ds =~= head.push(d));
    }
}

// ---------------------------------------------------------------------------
// Field encodings
// ---------------------------------------------------------------------------

/// A number field: decimal digits terminated by `:`.
pub open spec fn spec_enc_u64(n: nat) -> Seq<char> {
    spec_dec(n) + seq![':']
}

/// A string field: character count, then the characters themselves.
pub open spec fn spec_enc_str(s: Seq<char>) -> Seq<char> {
    spec_enc_u64(s.len()) + s
}

pub open spec fn spec_enc_bool(b: bool) -> Seq<char> {
    if b {
        seq!['1']
    } else {
        seq!['0']
    }
}

pub open spec fn spec_enc_opt_str(o: Option<Seq<char>>) -> Seq<char> {
    match o {
        Option::None => seq!['-'],
        Option::Some(s) => seq!['+'] + spec_enc_str(s),
    }
}

pub open spec fn spec_enc_opt_bool(o: Option<bool>) -> Seq<char> {
    match o {
        Option::None => seq!['-'],
        Option::Some(b) => seq!['+'] + spec_enc_bool(b),
    }
}

// ---------------------------------------------------------------------------
// Placement helper: reading a known block out of a longer text
// ---------------------------------------------------------------------------

/// If the suffix of `s` at `p` is `a` followed by `t`, then `a` occupies the
/// slice `[p, p + a.len())` of `s` and `t` is the suffix after it.
pub proof fn lemma_skip_block(s: Seq<char>, p: int, a: Seq<char>, t: Seq<char>)
    requires
        0 <= p <= s.len(),
        s.skip(p) == a + t,
    ensures
        p + a.len() <= s.len(),
        s.subrange(p, p + a.len()) == a,
        s.skip(p + a.len()) == t,
        forall|j: int| 0 <= j < a.len() ==> s[p + j] == a[j],
{
    assert(s.skip(p).len() == s.len() - p);
    assert forall|j: int| 0 <= j < a.len() implies s[p + j] == a[j] by {
        assert(s.skip(p)[j] == s[p + j]);
        assert((a + t)[j] == a[j]);
    }
    assert(s.subrange(p, p + a.len()) =~= a);
    assert forall|j: int| 0 <= j < t.len() implies s.skip(p + a.len())[j] == t[j] by {
        assert(s.skip(p + a.len())[j] == s[p + a.len() + j]);
        assert(s.skip(p)[a.len() + j] == s[p + a.len() + j]);
        assert((a + t)[a.len() + j] == t[j]);
    }
    assert(s.skip(p + a.len()) =~= t);
}

// ---------------------------------------------------------------------------
// Characters of a string
// ---------------------------------------------------------------------------

/// Relies on `String: FromIterator<char>`: collecting an iterator of chars
/// yields the string whose characters are exactly those chars, in order.
#[verifier::external_body]
pub fn chars_to_string(v: Vec<char>) -> (r: String)
    ensures
        r@ == v@,
{
    v.into_iter().collect()
}

/// The characters of a string slice, as a vector.
pub fn str_chars(s: &str) -> (r: Vec<char>)
    ensures
        r@ == s@,
{
    let n = s.unicode_len();
    let mut v: Vec<char> = Vec::new();
    let mut i: usize = 0;
    while i < n
        invariant
            i <= n,
            n == s@.len(),
            v@ == s@.take(i as int),
        decreases n - i,
    {
        let c = s.get_char(i);
        v.push(c);
        proof {
            assert(s@.take(i + 1 as int) =~= s@.take(i as int).push(s@[i as int]));
        }
        i += 1;
    }
    proof {
        assert(s@.take(n as int) =~= s@);
    }
    v
}

// ---------------------------------------------------------------------------
// Writers
// ---------------------------------------------------------------------------

fn char_of_digit(d: u64) -> (r: char)
    requires
        d <= 9,
    ensures
        r == digit_char(d as nat),
{
    if d == 0 {
        '0'
    } else if d == 1 {
        '1'
    } else if d == 2 {
        '2'
    } else if d == 3 {
        '3'
    } else if d == 4 {
        '4'
    } else if d == 5 {
        '5'
    } else if d == 6 {
        '6'
    } else if d == 7 {
        '7'
    } else if d == 8 {
        '8'
    } else {
        '9'
    }
}

fn digit_test(c: char) -> (r: bool)
    ensures
        r == is_digit(c),
{
    c == '0' || c == '1' || c == '2' || c == '3' || c == '4' || c == '5' || c == '6' || c == '7'
        || c == '8' || c == '9'
}

fn digit_value(c: char) -> (d: u64)
    requires
        is_digit(c),
    ensures
        d == char_val(c),
        d <= 9,
{
    if c == '0' {
        0
    } else if c == '1' {
        1
    } else if c == '2' {
        2
    } else if c == '3' {
        3
    } else if c == '4' {
        4
    } else if c == '5' {
        5
    } else if c == '6' {
        6
    } else if c == '7' {
        7
    } else if c == '8' {
        8
    } else {
        9
    }
}

/// Appends the decimal digits of `n`.
pub fn push_dec(out: &mut Vec<char>, n: u64)
    ensures
        final(out)@ == old(out)@ + spec_dec(n as nat),
{
    let mut rev: Vec<char> = Vec::new();
    let mut m: u64 = n;
    rev.push(char_of_digit(m % 10));
    m = m / 10;
    proof {
        assert(rev@.reverse() =~= seq![digit_char((n % 10) as nat)]);
        if n < 10 {
            assert(spec_dec(n as nat) =~= seq![digit_char(n as nat)]);
        }
    }
    while m > 0
        invariant
            rev@.len() >= 1,
            spec_dec(n as nat) == if m > 0 {
                spec_dec(m as nat) + rev@.reverse()
            } else {
                rev@.reverse()
            },
        decreases m,
    {
        let d = m % 10;
        rev.push(char_of_digit(d));
        proof {
            let prev = rev@.drop_last();
            assert(prev.push(digit_char(d as nat)) =~= rev@);
            assert(rev@.reverse() =~= seq![digit_char(d as nat)] + prev.reverse());
            if m >= 10 {
                assert(spec_dec(m as nat) == spec_dec((m / 10) as nat).push(
                    digit_char((m % 10) as nat),
                ));
                assert(spec_dec(m as nat) + prev.reverse() =~= spec_dec((m / 10) as nat) + (seq![
                    digit_char(d as nat),
                ] + prev.reverse()));
            } else {
                assert(spec_dec(m as nat) =~= seq![digit_char(d as nat)]);
                assert(spec_dec(m as nat) + prev.reverse() =~= seq![digit_char(d as nat)]
                    + prev.reverse());
            }
        }
        m = m / 10;
    }
    let ghost base = out@;
    let mut i: usize = rev.len();
    while i > 0
        invariant
            i <= rev@.len(),
            out@ == base + rev@.reverse().take(rev@.len() - i),
        decreases i,
    {
        i = i - 1;
        let c = rev[i];
        out.push(c);
        proof {
            assert(rev@.reverse()[rev@.len() - i - 1] == rev@[i as int]);
            assert(rev@.reverse().take(rev@.len() - i) =~= rev@.reverse().take(
                rev@.len() - i - 1,
            ).push(rev@[i as int]));
            assert(out@ =~= base + rev@.reverse().take(rev@.len() - i));
        }
    }
    proof {
        assert(rev@.reverse().take(rev@.len() as int) =~= rev@.reverse());
    }
}

/// Appends a number field.
pub fn push_u64(out: &mut Vec<char>, n: u64)
    ensures
        final(out)@ == old(out)@ + spec_enc_u64(n as nat),
{
    push_dec(out, n);
    out.push(':');
    proof {
        assert((old(out)@ + spec_dec(n as nat)).push(':') =~= old(out)@ + spec_enc_u64(n as nat));
    }
}

/// Appends a string field.
pub fn push_str_field(out: &mut Vec<char>, s: &str)
    ensures
        final(out)@ == old(out)@ + spec_enc_str(s@),
{
    let n = s.unicode_len();
    push_u64(out, n as u64);
    let mut cs = str_chars(s);
    out.append(&mut cs);
    proof {
        assert(old(out)@ + spec_enc_u64(s@.len()) + s@ =~= old(out)@ + spec_enc_str(s@));
    }
}

/// Appends a boolean field.
pub fn push_bool(out: &mut Vec<char>, b: bool)
    ensures
        final(out)@ == old(out)@ + spec_enc_bool(b),
{
    if b {
        out.push('1');
    } else {
        out.push('0');
    }
    proof {
        assert(old(out)@.push(if b {
            '1'
        } else {
            '0'
        }) =~= old(out)@ + spec_enc_bool(b));
    }
}

/// Appends an optional string field.
pub fn push_opt_str(out: &mut Vec<char>, o: &Option<String>)
    ensures
        final(out)@ == old(out)@ + spec_enc_opt_str(
            match *o {
                Option::None => Option::None,
                Option::Some(ref s) => Option::Some(s@),
            },
        ),
{
    match o {
        Option::None => {
            out.push('-');
            proof {
                assert(old(out)@.push('-') =~= old(out)@ + seq!['-']);
            }
        },
        Option::Some(s) => {
            out.push('+');
            push_str_field(out, s.as_str());
            proof {
                assert(old(out)@.push('+') + spec_enc_str(s@) =~= old(out)@ + (seq!['+']
                    + spec_enc_str(s@)));
            }
        },
    }
}

/// Appends an optional boolean field.
pub fn push_opt_bool(out: &mut Vec<char>, o: &Option<bool>)
    ensures
        final(out)@ == old(out)@ + spec_enc_opt_bool(*o),
{
    match o {
        Option::None => {
            out.push('-');
            proof {
                assert(old(out)@.push('-') =~= old(out)@ + seq!['-']);
            }
        },
        Option::Some(b) => {
            out.push('+');
            push_bool(out, *b);
            proof {
                assert(old(out)@.push('+') + spec_enc_bool(*b) =~= old(out)@ + (seq!['+']
                    + spec_enc_bool(*b)));
            }
        },
    }
}

// ---------------------------------------------------------------------------
// Readers
// ---------------------------------------------------------------------------

/// Reads a number field at `pos`.  On success the consumed slice is exactly
/// the field encoding of the result; on any input whose suffix begins with a
/// valid field the read succeeds with that field's value.
pub fn take_u64(s: &Vec<char>, pos: &mut usize) -> (r: Option<u64>)
    requires
        *old(pos) <= s@.len(),
    ensures
        match r {
            Option::Some(n) => *old(pos) < *final(pos) <= s@.len() && s@.subrange(
                *old(pos) as int,
                *final(pos) as int,
            ) == spec_enc_u64(n as nat),
            Option::None => *final(pos) == *old(pos),
        },
        forall|n: u64, rest: Seq<char>|
            s@.skip(*old(pos) as int) == spec_enc_u64(n as nat) + rest ==> r == Option::Some(n)
                && *final(pos) == *old(pos) + spec_enc_u64(n as nat).len(),
{
    let ghost p0 = *pos as int;
    let len = s.len();
    let start = *pos;
    let mut i: usize = start;
    let mut acc: u64 = 0;
    proof {
        assert(s@.subrange(p0, p0) =~= Seq::<char>::empty());
    }
    while i < len && digit_test(s[i])
        invariant
            start <= i <= len,
            len == s@.len(),
            p0 == start as int,
            *pos == start,
            forall|j: int| p0 <= j < i as int ==> is_digit(#[trigger] s@[j]),
            acc == digits_val(s@.subrange(p0, i as int)),
        decreases len - i,
    {
        let d = digit_value(s[i]);
        if acc > (u64::MAX - d) / 10 {
            proof {
                overflow_contradiction(s@, p0, i as int, acc, d);
            }
            return Option::None;
        }
        proof {
            assert(acc * 10 + d <= u64::MAX) by (nonlinear_arith)
                requires
                    acc <= (u64::MAX - d) / 10,
                    d <= 9,
            ;
        }
        acc = acc * 10 + d;
        proof {
            assert(s@.subrange(p0, i + 1 as int).drop_last() =~= s@.subrange(p0, i as int));
            assert(s@.subrange(p0, i + 1 as int).last() == s@[i as int]);
        }
        i += 1;
    }
    proof {
        // If the input at `p0` begins with an encoded number, the scan has
        // consumed exactly that number's digits and accumulated its value.
        assert forall|n: u64, rest: Seq<char>|
            s@.skip(p0) == spec_enc_u64(n as nat) + rest implies i as int - p0 == spec_dec(
            n as nat,
        ).len() && s@.subrange(p0, i as int) == spec_dec(n as nat) && acc == n by {
            scan_exact(s@, p0, i as int, n as nat, rest);
            lemma_dec_val(n as nat);
        }
    }
    if i == start {
        proof {
            assert forall|n: u64, rest: Seq<char>|
                s@.skip(p0) != spec_enc_u64(n as nat) + rest by {
                if s@.skip(p0) == spec_enc_u64(n as nat) + rest {
                    lemma_dec_digits(n as nat);
                }
            }
        }
        return Option::None;
    }
    if i > start + 1 && digit_value(s[start]) == 0 {
        proof {
            assert(char_val(s@[p0]) == 0);
            assert(is_digit(s@[p0]));
            assert(s@[p0] == '0');
            assert forall|n: u64, rest: Seq<char>|
                s@.skip(p0) != spec_enc_u64(n as nat) + rest by {
                if s@.skip(p0) == spec_enc_u64(n as nat) + rest {
                    if n < 10 {
                        assert(spec_dec(n as nat).len() == 1);
                    } else {
                        lemma_dec_first(n as nat);
                        assert(s@.subrange(p0, i as int)[0] == s@[p0]);
                    }
                }
            }
        }
        return Option::None;
    }
    if i == len || s[i] != ':' {
        proof {
            assert forall|n: u64, rest: Seq<char>|
                s@.skip(p0) != spec_enc_u64(n as nat) + rest by {
                if s@.skip(p0) == spec_enc_u64(n as nat) + rest {
                    let dl = spec_dec(n as nat).len() as int;
                    assert(spec_enc_u64(n as nat) + rest =~= spec_dec(n as nat) + (seq![':']
                        + rest));
                    lemma_skip_block(s@, p0, spec_dec(n as nat), seq![':'] + rest);
                    assert(s@.skip(p0 + dl)[0] == s@[p0 + dl]);
                    assert((seq![':'] + rest)[0] == ':');
                    assert(i as int == p0 + dl);
                    assert(i < len && s@[i as int] == ':');
                }
            }
        }
        return Option::None;
    }
    proof {
        let ds = s@.subrange(p0, i as int);
        assert(forall|j: int| 0 <= j < ds.len() ==> is_digit(#[trigger] ds[j]));
        if i as int - p0 > 1 {
            assert(ds[0] == s@[p0]);
            assert(char_val(s@[p0]) != 0);
            assert(ds[0] != '0');
        }
        lemma_canonical(ds);
        assert(s@.subrange(p0, i + 1 as int) =~= ds + seq![':']);
        assert(s@.subrange(p0, i + 1 as int) =~= spec_enc_u64(acc as nat));
    }
    *pos = i + 1;
    Option::Some(acc)
}

/// If the suffix at `p0` begins with an encoded number, a maximal digit scan
/// that stopped at `i` stopped exactly at the end of that number's digits.
proof fn scan_exact(s: Seq<char>, p0: int, i: int, n: nat, rest: Seq<char>)
    requires
        0 <= p0 <= i <= s.len(),
        s.skip(p0) == spec_enc_u64(n) + rest,
        forall|j: int| p0 <= j < i ==> is_digit(#[trigger] s[j]),
        i == s.len() || !is_digit(s[i]),
    ensures
        i - p0 == spec_dec(n).len(),
        s.subrange(p0, i) == spec_dec(n),
{
    let dl = spec_dec(n).len() as int;
    lemma_dec_digits(n);
    assert(spec_enc_u64(n) + rest =~= spec_dec(n) + (seq![':'] + rest));
    lemma_skip_block(s, p0, spec_dec(n), seq![':'] + rest);
    assert(s.skip(p0 + dl)[0] == s[p0 + dl]);
    assert((seq![':'] + rest)[0] == ':');
    assert(s[p0 + dl] == ':');
    assert(!is_digit(':'));
    // the scan cannot pass the ':' that ends the digits
    if i > p0 + dl {
        assert(is_digit(s[p0 + dl]));
        assert(false);
    }
    // and it cannot stop earlier, because the next char would be a digit
    if i < p0 + dl {
        assert(s[i] == spec_dec(n)[i - p0]);
        assert(is_digit(s[i]));
        assert(i < s.len());
        assert(false);
    }
    assert(s.subrange(p0, i) =~= spec_dec(n));
}

/// At the overflow check, accepting the next digit would push the value past
/// `u64::MAX`; if the input began with a valid number field this cannot
/// happen, because every scanned prefix is a prefix of that number's digits.
proof fn overflow_contradiction(s: Seq<char>, p0: int, i: int, acc: u64, d: u64)
    requires
        0 <= p0 <= i < s.len(),
        forall|j: int| p0 <= j < i ==> is_digit(#[trigger] s[j]),
        is_digit(s[i]),
        d == char_val(s[i]),
        acc == digits_val(s.subrange(p0, i)),
        acc > (u64::MAX - d) / 10,
        d <= 9,
    ensures
        forall|n: u64, rest: Seq<char>| s.skip(p0) != spec_enc_u64(n as nat) + rest,
{
    assert forall|n: u64, rest: Seq<char>| s.skip(p0) != spec_enc_u64(n as nat) + rest by {
        if s.skip(p0) == spec_enc_u64(n as nat) + rest {
            let dl = spec_dec(n as nat).len() as int;
            lemma_dec_digits(n as nat);
            assert(spec_enc_u64(n as nat) + rest =~= spec_dec(n as nat) + (seq![':'] + rest));
            lemma_skip_block(s, p0, spec_dec(n as nat), seq![':'] + rest);
            assert(s.skip(p0 + dl)[0] == s[p0 + dl]);
            assert((seq![':'] + rest)[0] == ':');
            assert(s[p0 + dl] == ':');
            assert(!is_digit(':'));
            // i lies strictly inside the digit block
            assert(i - p0 < dl) by {
                if i - p0 >= dl {
                    assert(p0 + dl < s.len());
                    if p0 + dl < i {
                        assert(is_digit(s[p0 + dl]));
                    } else {
                        assert(i == p0 + dl);
                        assert(is_digit(s[i]));
                    }
                }
            }
            let pref = s.subrange(p0, i + 1);
            assert(pref =~= spec_dec(n as nat).take(i + 1 - p0));
            lemma_val_prefix(spec_dec(n as nat), i + 1 - p0);
            lemma_dec_val(n as nat);
            assert(pref.drop_last() =~= s.subrange(p0, i));
            assert(pref.last() == s[i]);
            assert(digits_val(pref) == acc * 10 + d);
            assert(digits_val(pref) <= n as nat);
            assert(acc * 10 + d > u64::MAX) by (nonlinear_arith)
                requires
                    acc > (u64::MAX - d) / 10,
                    d <= 9,
            ;
            assert(false);
        }
    }
}

/// `spec_enc_str` split into its two parts.
proof fn enc_str_parts(x: Seq<char>, rest: Seq<char>)
    ensures
        spec_enc_str(x) + rest =~= spec_enc_u64(x.len()) + (x + rest),
{
}

/// Reads a string field at `pos`.
pub fn take_str(s: &Vec<char>, pos: &mut usize) -> (r: Option<String>)
    requires
        *old(pos) <= s@.len(),
    ensures
        match r {
            Option::Some(ref v) => *old(pos) < *final(pos) <= s@.len() && s@.subrange(
                *old(pos) as int,
                *final(pos) as int,
            ) == spec_enc_str(v@),
            Option::None => *final(pos) == *old(pos),
        },
        forall|x: Seq<char>, rest: Seq<char>|
            s@.skip(*old(pos) as int) == spec_enc_str(x) + rest ==> (r matches Option::Some(v)
                && v@ == x && *final(pos) == *old(pos) + spec_enc_str(x).len()),
{
    let ghost p0 = *pos as int;
    let start = *pos;
    let slen = s.len();
    let n_opt = take_u64(s, pos);
    match n_opt {
        Option::None => {
            proof {
                assert forall|x: Seq<char>, rest: Seq<char>|
                    s@.skip(p0) != spec_enc_str(x) + rest by {
                    if s@.skip(p0) == spec_enc_str(x) + rest {
                        enc_str_parts(x, rest);
                        assert(x.len() <= s@.len());
                        let nl = x.len() as u64;
                        assert(s@.skip(p0) == spec_enc_u64(nl as nat) + (x + rest));
                    }
                }
            }
            Option::None
        },
        Option::Some(n) => {
            let mid = *pos;
            let remaining = slen - mid;
            if n > remaining as u64 {
                *pos = start;
                proof {
                    assert forall|x: Seq<char>, rest: Seq<char>|
                        s@.skip(p0) != spec_enc_str(x) + rest by {
                        if s@.skip(p0) == spec_enc_str(x) + rest {
                            enc_str_parts(x, rest);
                            assert(x.len() <= s@.len());
                            let nl = x.len() as u64;
                            assert(s@.skip(p0) == spec_enc_u64(nl as nat) + (x + rest));
                            assert(n == nl);
                            assert(mid == p0 + spec_enc_u64(nl as nat).len());
                            lemma_skip_block(s@, p0, spec_enc_u64(nl as nat), x + rest);
                            assert(s@.skip(mid as int).len() == s@.len() - mid);
                            assert((x + rest).len() >= x.len());
                        }
                    }
                }
                return Option::None;
            }
            let cnt = n as usize;
            let mut v: Vec<char> = Vec::new();
            let mut i: usize = 0;
            proof {
                assert(s@.subrange(mid as int, mid as int) =~= Seq::<char>::empty());
            }
            while i < cnt
                invariant
                    i <= cnt,
                    mid + cnt <= s@.len(),
                    s@.len() <= usize::MAX,
                    v@ == s@.subrange(mid as int, mid + i as int),
                decreases cnt - i,
            {
                let c = s[mid + i];
                v.push(c);
                proof {
                    assert(s@.subrange(mid as int, mid + i + 1 as int) =~= s@.subrange(
                        mid as int,
                        mid + i as int,
                    ).push(s@[mid + i]));
                }
                i += 1;
            }
            *pos = mid + cnt;
            proof {
                assert(s@.subrange(p0, mid + cnt as int) =~= s@.subrange(p0, mid as int)
                    + s@.subrange(mid as int, mid + cnt as int));
                assert(s@.subrange(p0, mid as int) == spec_enc_u64(n as nat));
                assert(v@.len() == n as nat);
                assert(s@.subrange(p0, mid + cnt as int) =~= spec_enc_str(v@));
                assert forall|x: Seq<char>, rest: Seq<char>|
                    s@.skip(p0) == spec_enc_str(x) + rest implies v@ == x && mid + cnt == p0
                    + spec_enc_str(x).len() by {
                    enc_str_parts(x, rest);
                    assert(x.len() <= s@.len());
                    let nl = x.len() as u64;
                    assert(s@.skip(p0) == spec_enc_u64(nl as nat) + (x + rest));
                    assert(n == nl);
                    lemma_skip_block(s@, p0, spec_enc_u64(nl as nat), x + rest);
                    assert(s@.skip(mid as int) == x + rest);
                    lemma_skip_block(s@, mid as int, x, rest);
                    assert forall|j: int| 0 <= j < x.len() implies v@[j] == x[j] by {
                        assert(s@[mid + j] == x[j]);
                        assert(v@[j] == s@.subrange(mid as int, mid + cnt as int)[j]);
                    }
                    assert(v@ =~= x);
                }
            }
            let r = chars_to_string(v);
            Option::Some(r)
        },
    }
}

/// Reads a boolean field at `pos`.
pub fn take_bool(s: &Vec<char>, pos: &mut usize) -> (r: Option<bool>)
    requires
        *old(pos) <= s@.len(),
    ensures
        match r {
            Option::Some(b) => *final(pos) == *old(pos) + 1 && *final(pos) <= s@.len()
                && s@.subrange(*old(pos) as int, *final(pos) as int) == spec_enc_bool(b),
            Option::None => *final(pos) == *old(pos),
        },
        forall|b: bool, rest: Seq<char>|
            s@.skip(*old(pos) as int) == spec_enc_bool(b) + rest ==> r == Option::Some(b),
{
    let ghost p0 = *pos as int;
    let mut found: Option<bool> = Option::None;
    if *pos < s.len() {
        let c = s[*pos];
        if c == '1' {
            found = Option::Some(true);
        } else if c == '0' {
            found = Option::Some(false);
        }
    }
    proof {
        assert forall|b: bool, rest: Seq<char>|
            s@.skip(p0) == spec_enc_bool(b) + rest implies found == Option::Some(b) by {
            lemma_skip_block(s@, p0, spec_enc_bool(b), rest);
            assert(s@[p0] == spec_enc_bool(b)[0]);
        }
    }
    match found {
        Option::Some(b) => {
            proof {
                assert(s@.subrange(p0, p0 + 1) =~= spec_enc_bool(b));
            }
            *pos = *pos + 1;
            Option::Some(b)
        },
        Option::None => Option::None,
    }
}

/// Reads one expected character at `pos` (used for tags and markers).
pub fn take_char(s: &Vec<char>, pos: &mut usize, expected: char) -> (r: bool)
    requires
        *old(pos) <= s@.len(),
    ensures
        r ==> *final(pos) == *old(pos) + 1 && *final(pos) <= s@.len() && s@[*old(pos) as int]
            == expected,
        !r ==> *final(pos) == *old(pos) && (*old(pos) == s@.len() || s@[*old(pos) as int]
            != expected),
{
    if *pos < s.len() {
        let c = s[*pos];
        if c == expected {
            *pos = *pos + 1;
            return true;
        }
    }
    false
}

/// Reads an optional string field at `pos`.
pub fn take_opt_str(s: &Vec<char>, pos: &mut usize) -> (r: Option<Option<String>>)
    requires
        *old(pos) <= s@.len(),
    ensures
        match r {
            Option::Some(ref o) => *old(pos) < *final(pos) <= s@.len() && s@.subrange(
                *old(pos) as int,
                *final(pos) as int,
            ) == spec_enc_opt_str(
                match *o {
                    Option::None => Option::None,
                    Option::Some(ref v) => Option::Some(v@),
                },
            ),
            Option::None => *final(pos) == *old(pos),
        },
        forall|x: Option<Seq<char>>, rest: Seq<char>|
            s@.skip(*old(pos) as int) == spec_enc_opt_str(x) + rest ==> (r matches Option::Some(o)
                && (match x {
                Option::None => o is None,
                Option::Some(xs) => o matches Option::Some(v) && v@ == xs,
            }) && *final(pos) == *old(pos) + spec_enc_opt_str(x).len()),
{
    let ghost p0 = *pos as int;
    if take_char(s, pos, '-') {
        proof {
            assert(s@.subrange(p0, p0 + 1) =~= seq!['-']);
            assert forall|x: Option<Seq<char>>, rest: Seq<char>|
                s@.skip(p0) == spec_enc_opt_str(x) + rest implies x is None by {
                if x is Some {
                    lemma_skip_block(s@, p0, spec_enc_opt_str(x), rest);
                    assert(s@[p0] == spec_enc_opt_str(x)[0]);
                    assert(spec_enc_opt_str(x)[0] == '+');
                }
            }
        }
        return Option::Some(Option::None);
    }
    if take_char(s, pos, '+') {
        let inner = take_str(s, pos);
        proof {
            assert forall|x: Option<Seq<char>>, rest: Seq<char>|
                s@.skip(p0) == spec_enc_opt_str(x) + rest implies (match x {
                Option::None => false,
                Option::Some(xs) => s@.skip(p0 + 1) == spec_enc_str(xs) + rest,
            }) by {
                lemma_skip_block(s@, p0, spec_enc_opt_str(x), rest);
                match x {
                    Option::None => {
                        assert(s@[p0] == spec_enc_opt_str(x)[0]);
                        assert(spec_enc_opt_str(x)[0] == '-');
                    },
                    Option::Some(xs) => {
                        assert(spec_enc_opt_str(x) + rest =~= seq!['+'] + (spec_enc_str(xs)
                            + rest));
                        lemma_skip_block(s@, p0, seq!['+'], spec_enc_str(xs) + rest);
                    },
                }
            }
        }
        match inner {
            Option::Some(v) => {
                proof {
                    assert(s@.subrange(p0, *pos as int) =~= seq!['+'] + s@.subrange(
                        p0 + 1,
                        *pos as int,
                    ));
                }
                Option::Some(Option::Some(v))
            },
            Option::None => {
                *pos = *pos - 1;
                Option::None
            },
        }
    } else {
        proof {
            assert forall|x: Option<Seq<char>>, rest: Seq<char>|
                s@.skip(p0) != spec_enc_opt_str(x) + rest by {
                if s@.skip(p0) == spec_enc_opt_str(x) + rest {
                    lemma_skip_block(s@, p0, spec_enc_opt_str(x), rest);
                    assert(s@[p0] == spec_enc_opt_str(x)[0]);
                    match x {
                        Option::None => {
                            assert(spec_enc_opt_str(x)[0] == '-');
                        },
                        Option::Some(xs) => {
                            assert(spec_enc_opt_str(x)[0] == '+');
                        },
                    }
                }
            }
        }
        Option::None
    }
}

/// Reads an optional boolean field at `pos`.
pub fn take_opt_bool(s: &Vec<char>, pos: &mut usize) -> (r: Option<Option<bool>>)
    requires
        *old(pos) <= s@.len(),
    ensures
        match r {
            Option::Some(o) => *old(pos) < *final(pos) <= s@.len() && s@.subrange(
                *old(pos) as int,
                *final(pos) as int,
            ) == spec_enc_opt_bool(o),
            Option::None => *final(pos) == *old(pos),
        },
        forall|x: Option<bool>, rest: Seq<char>|
            s@.skip(*old(pos) as int) == spec_enc_opt_bool(x) + rest ==> r == Option::Some(x)
                && *final(pos) == *old(pos) + spec_enc_opt_bool(x).len(),
{
    let ghost p0 = *pos as int;
    if take_char(s, pos, '-') {
        proof {
            assert(s@.subrange(p0, p0 + 1) =~= seq!['-']);
            assert forall|x: Option<bool>, rest: Seq<char>|
                s@.skip(p0) == spec_enc_opt_bool(x) + rest implies x is None by {
                if x is Some {
                    lemma_skip_block(s@, p0, spec_enc_opt_bool(x), rest);
                    assert(s@[p0] == spec_enc_opt_bool(x)[0]);
                    assert(spec_enc_opt_bool(x)[0] == '+');
                }
            }
        }
        return Option::Some(Option::None);
    }
    if take_char(s, pos, '+') {
        let inner = take_bool(s, pos);
        proof {
            assert forall|x: Option<bool>, rest: Seq<char>|
                s@.skip(p0) == spec_enc_opt_bool(x) + rest implies (match x {
                Option::None => false,
                Option::Some(xb) => s@.skip(p0 + 1) == spec_enc_bool(xb) + rest,
            }) by {
                lemma_skip_block(s@, p0, spec_enc_opt_bool(x), rest);
                match x {
                    Option::None => {
                        assert(s@[p0] == spec_enc_opt_bool(x)[0]);
                        assert(spec_enc_opt_bool(x)[0] == '-');
                    },
                    Option::Some(xb) => {
                        assert(spec_enc_opt_bool(x) + rest =~= seq!['+'] + (spec_enc_bool(xb)
                            + rest));
                        lemma_skip_block(s@, p0, seq!['+'], spec_enc_bool(xb) + rest);
                    },
                }
            }
        }
        match inner {
            Option::Some(b) => {
                proof {
                    assert(s@.subrange(p0, *pos as int) =~= seq!['+'] + s@.subrange(
                        p0 + 1,
                        *pos as int,
                    ));
                }
                Option::Some(Option::Some(b))
            },
            Option::None => {
                *pos = *pos - 1;
                Option::None
            },
        }
    } else {
        proof {
            assert forall|x: Option<bool>, rest: Seq<char>|
                s@.skip(p0) != spec_enc_opt_bool(x) + rest by {
                if s@.skip(p0) == spec_enc_opt_bool(x) + rest {
                    lemma_skip_block(s@, p0, spec_enc_opt_bool(x), rest);
                    assert(s@[p0] == spec_enc_opt_bool(x)[0]);
                    match x {
                        Option::None => {
                            assert(spec_enc_opt_bool(x)[0] == '-');
                        },
                        Option::Some(xb) => {
                            assert(spec_enc_opt_bool(x)[0] == '+');
                        },
                    }
                }
            }
        }
        Option::None
    }
}

/// The decimal text of a number.
pub fn u64_string(n: u64) -> (r: String)
    ensures
        r@ == spec_dec(n as nat),
{
    let mut v: Vec<char> = Vec::new();
    push_dec(&mut v, n);
    proof {
        assert(v@ =~= spec_dec(n as nat));
    }
    chars_to_string(v)
}

} // verus!
