//! Decimal rendering of stat numbers.
//!
//! Values are rendered the way the dashboard shows them: whole numbers with
//! thousands separators (`format_u64`), and raw stat values in their natural
//! decimal form (`1`, `1.5`, `-0.25`) for the filter strings.
use crate::num::MAX_STAT_MICROS;
use vstd::prelude::*;

verus! {

/// The ASCII digit for `d`.
pub open spec fn digit_char(d: int) -> char
    recommends
        0 <= d < 10,
{
    ((48 + d) as u8) as char
}

/// The decimal digits of `n`, most significant first.
pub open spec fn dec_str(n: nat) -> Seq<char>
    decreases n,
{
    if n < 10 {
        seq![digit_char(n as int)]
    } else {
        dec_str(n / 10).push(digit_char((n % 10) as int))
    }
}

/// `n` as exactly three digits, zero-padded; meaningful for `n < 1000`.
pub open spec fn pad3(n: nat) -> Seq<char> {
    seq![
        digit_char((n / 100) as int % 10),
        digit_char((n / 10) as int % 10),
        digit_char(n as int % 10),
    ]
}

/// The decimal digits of `n` with a comma between each group of three.
pub open spec fn comma_str(n: nat) -> Seq<char>
    decreases n,
{
    if n < 1000 {
        dec_str(n)
    } else {
        comma_str(n / 1000) + seq![','] + pad3(n % 1000)
    }
}

/// `n` as exactly six digits, zero-padded; meaningful for `n < 1_000_000`.
pub open spec fn pad6(n: nat) -> Seq<char> {
    seq![
        digit_char((n / 100000) as int % 10),
        digit_char((n / 10000) as int % 10),
        digit_char((n / 1000) as int % 10),
        digit_char((n / 100) as int % 10),
        digit_char((n / 10) as int % 10),
        digit_char(n as int % 10),
    ]
}

/// `s` with all trailing `'0'` characters removed.
pub open spec fn trim_zeros(s: Seq<char>) -> Seq<char>
    decreases s.len(),
{
    if s.len() > 0 && s.last() == '0' {
        trim_zeros(s.drop_last())
    } else {
        s
    }
}

/// A fixed-point number in micro-units, rendered in its natural decimal form:
/// optional minus sign, the whole units, and, when the fractional part is not
/// zero, a point followed by the fraction with trailing zeros removed.
pub open spec fn render_micros(m: int) -> Seq<char> {
    let a = if m < 0 {
        -m
    } else {
        m
    };
    let units = (a / 1_000_000) as nat;
    let frac = (a % 1_000_000) as nat;
    let body = if frac == 0 {
        dec_str(units)
    } else {
        dec_str(units) + seq!['.'] + trim_zeros(pad6(frac))
    };
    if m < 0 {
        seq!['-'] + body
    } else {
        body
    }
}

/// The bytes of `bs` read as characters (meaningful when all are ASCII).
pub open spec fn chars_of(bs: Seq<u8>) -> Seq<char> {
    bs.map_values(|b: u8| b as char)
}

/// All bytes are ASCII.
pub open spec fn all_ascii(bs: Seq<u8>) -> bool {
    forall|i: int| 0 <= i < bs.len() ==> bs[i] < 128
}

proof fn lemma_chars_of_push(bs: Seq<u8>, b: u8)
    ensures
        chars_of(bs.push(b)) == chars_of(bs).push(b as char),
{
    assert(chars_of(bs.push(b)) =~= chars_of(bs).push(b as char));
}

proof fn lemma_chars_of_add(a: Seq<u8>, b: Seq<u8>)
    ensures
        chars_of(a + b) == chars_of(a) + chars_of(b),
{
    assert(chars_of(a + b) =~= chars_of(a) + chars_of(b));
}

/// Equality of string slices is equality of their character sequences.
pub assume_specification[ <str as PartialEq<str>>::eq ](a: &str, b: &str) -> (r: bool)
    ensures
        r == (a@ == b@),
;

/// Compares two string slices by their characters.
pub fn str_eq(a: &str, b: &str) -> (r: bool)
    ensures
        r == (a@ == b@),
{
    a.eq(b)
}

/// Lexicographic order on character sequences by code point; for ASCII and
/// general UTF-8 keys this is the order their encoded bytes compare in.
pub open spec fn str_lt(a: Seq<char>, b: Seq<char>) -> bool
    decreases a.len(),
{
    if b.len() == 0 {
        false
    } else if a.len() == 0 {
        true
    } else if a.first() != b.first() {
        (a.first() as int) < (b.first() as int)
    } else {
        str_lt(a.drop_first(), b.drop_first())
    }
}

/// `str_lt` is irreflexive.
pub proof fn lemma_str_lt_irrefl(a: Seq<char>)
    ensures
        !str_lt(a, a),
    decreases a.len(),
{
    if a.len() > 0 {
        lemma_str_lt_irrefl(a.drop_first());
    }
}

/// `str_lt` is total: of two distinct sequences, exactly one is below the
/// other.
pub proof fn lemma_str_lt_total(a: Seq<char>, b: Seq<char>)
    ensures
        !(str_lt(a, b) && str_lt(b, a)),
        a != b ==> str_lt(a, b) || str_lt(b, a),
        !str_lt(a, a),
    decreases a.len() + b.len(),
{
    lemma_str_lt_irrefl(a);
    if a.len() > 0 && b.len() > 0 {
        if a.first() == b.first() {
            lemma_str_lt_total(a.drop_first(), b.drop_first());
            if a != b {
                if a.drop_first() == b.drop_first() {
                    assert forall|i: int| 0 <= i < a.len() implies a[i] == b[i] by {
                        if i > 0 {
                            assert(a.drop_first()[i - 1] == b.drop_first()[i - 1]);
                        }
                    }
                    assert(a =~= b);
                }
            }
        } else {
            assert((a.first() as int) != (b.first() as int));
        }
    } else if a.len() == 0 && b.len() == 0 {
        assert(a =~= b);
    }
}

/// `str_lt` is transitive.
pub proof fn lemma_str_lt_trans(a: Seq<char>, b: Seq<char>, c: Seq<char>)
    requires
        str_lt(a, b),
        str_lt(b, c),
    ensures
        str_lt(a, c),
    decreases a.len() + b.len() + c.len(),
{
    if a.len() > 0 && b.len() > 0 && c.len() > 0 && a.first() == b.first() && b.first()
        == c.first() {
        lemma_str_lt_trans(a.drop_first(), b.drop_first(), c.drop_first());
    }
}

/// A shared prefix does not decide the order.
proof fn lemma_str_lt_skip(a: Seq<char>, b: Seq<char>, i: int)
    requires
        0 <= i <= a.len(),
        i <= b.len(),
        forall|j: int| 0 <= j < i ==> a[j] == b[j],
    ensures
        str_lt(a, b) == str_lt(a.skip(i), b.skip(i)),
    decreases i,
{
    if i > 0 {
        assert(a[0] == b[0]);
        assert(a.first() == b.first());
        assert forall|j: int| 0 <= j < i - 1 implies a.drop_first()[j] == b.drop_first()[j] by {
            assert(a.drop_first()[j] == a[j + 1]);
            assert(b.drop_first()[j] == b[j + 1]);
        }
        lemma_str_lt_skip(a.drop_first(), b.drop_first(), i - 1);
        assert(a.drop_first().skip(i - 1) =~= a.skip(i));
        assert(b.drop_first().skip(i - 1) =~= b.skip(i));
    } else {
        assert(a.skip(0) =~= a);
        assert(b.skip(0) =~= b);
    }
}

/// Whether `a` orders strictly below `b`.
pub fn str_lt_exec(a: &str, b: &str) -> (r: bool)
    ensures
        r == str_lt(a@, b@),
{
    let al = a.unicode_len();
    let bl = b.unicode_len();
    let mut i: usize = 0;
    loop
        invariant
            i <= al,
            i <= bl,
            al == a@.len(),
            bl == b@.len(),
            forall|j: int| 0 <= j < i ==> a@[j] == b@[j],
        ensures
            i <= al && i <= bl,
            forall|j: int| 0 <= j < i ==> a@[j] == b@[j],
            i < al && i < bl ==> a@[i as int] != b@[i as int] && (str_lt(a@, b@) == ((a@[i
                as int] as int) < (b@[i as int] as int))),
            i == al || i == bl ==> str_lt(a@, b@) == (al < bl),
        decreases al - i,
    {
        if i == al || i == bl {
            proof {
                lemma_str_lt_skip(a@, b@, i as int);
                if i == al {
                    assert(a@.skip(i as int) =~= Seq::<char>::empty());
                    if al < bl {
                        assert(b@.skip(i as int).len() > 0);
                    } else {
                        assert(b@.skip(i as int) =~= Seq::<char>::empty());
                    }
                } else {
                    assert(b@.skip(i as int) =~= Seq::<char>::empty());
                    assert(a@.skip(i as int).len() > 0);
                }
            }
            break;
        }
        let ca = a.get_char(i);
        let cb = b.get_char(i);
        if ca != cb {
            proof {
                lemma_str_lt_skip(a@, b@, i as int);
                assert(a@.skip(i as int).first() == a@[i as int]);
                assert(b@.skip(i as int).first() == b@[i as int]);
            }
            break;
        }
        i += 1;
    }
    if i < al && i < bl {
        let ca = a.get_char(i);
        let cb = b.get_char(i);
        (ca as u32) < (cb as u32)
    } else {
        al < bl
    }
}

/// `p` is a prefix of `s`.
pub open spec fn has_prefix(s: Seq<char>, p: Seq<char>) -> bool {
    p.len() <= s.len() && s.subrange(0, p.len() as int) == p
}

/// Whether `p` is a prefix of `s`.
pub fn str_has_prefix(s: &str, p: &str) -> (r: bool)
    ensures
        r == has_prefix(s@, p@),
{
    let sl = s.unicode_len();
    let pl = p.unicode_len();
    if pl > sl {
        return false;
    }
    let mut i: usize = 0;
    while i < pl
        invariant
            i <= pl,
            pl == p@.len(),
            sl == s@.len(),
            pl <= sl,
            forall|j: int| 0 <= j < i ==> s@[j] == p@[j],
        decreases pl - i,
    {
        if s.get_char(i) != p.get_char(i) {
            proof {
                if s@.subrange(0, p@.len() as int) == p@ {
                    assert(s@.subrange(0, p@.len() as int)[i as int] == s@[i as int]);
                }
            }
            return false;
        }
        i += 1;
    }
    proof {
        assert(s@.subrange(0, p@.len() as int) =~= p@);
    }
    true
}

/// Relies on String::from_utf8: ASCII bytes are valid UTF-8 and decode to the
/// same characters, so the conversion cannot fail.
#[verifier::external_body]
pub(crate) fn string_from_ascii(bytes: Vec<u8>) -> (s: String)
    requires
        all_ascii(bytes@),
    ensures
        s@ == chars_of(bytes@),
{
    String::from_utf8(bytes).expect("ASCII bytes are valid UTF-8")
}

/// Appends the decimal digits of `n`.
fn push_dec(out: &mut Vec<u8>, n: u64)
    ensures
        final(out)@ == old(out)@ + digits_bytes(n as nat),
    decreases n,
{
    proof {
        reveal_with_fuel(digits_bytes, 2);
    }
    if n < 10 {
        out.push(48 + n as u8);
        assert(out@ =~= old(out)@ + digits_bytes(n as nat));
    } else {
        push_dec(out, n / 10);
        out.push(48 + (n % 10) as u8);
        assert(out@ =~= old(out)@ + digits_bytes(n as nat));
    }
}

/// The byte-level mirror of `dec_str`.
pub open spec fn digits_bytes(n: nat) -> Seq<u8>
    decreases n,
{
    if n < 10 {
        seq![(48 + n) as u8]
    } else {
        digits_bytes(n / 10).push((48 + n % 10) as u8)
    }
}

proof fn lemma_digits_bytes_ok(n: nat)
    ensures
        chars_of(digits_bytes(n)) == dec_str(n),
        all_ascii(digits_bytes(n)),
    decreases n,
{
    if n < 10 {
        assert(chars_of(digits_bytes(n)) =~= dec_str(n));
    } else {
        lemma_digits_bytes_ok(n / 10);
        lemma_chars_of_push(digits_bytes(n / 10), (48 + n % 10) as u8);
        assert(chars_of(digits_bytes(n)) =~= dec_str(n));
        assert forall|i: int| 0 <= i < digits_bytes(n).len() implies digits_bytes(n)[i]
            < 128 by {
            if i < digits_bytes(n / 10).len() {
                assert(digits_bytes(n)[i] == digits_bytes(n / 10)[i]);
            }
        }
    }
}

/// The byte-level mirror of `comma_str`.
pub open spec fn comma_bytes(n: nat) -> Seq<u8>
    decreases n,
{
    if n < 1000 {
        digits_bytes(n)
    } else {
        comma_bytes(n / 1000) + seq![44u8] + seq![
            (48 + (n % 1000) / 100) as u8,
            (48 + (n % 1000) / 10 % 10) as u8,
            (48 + (n % 1000) % 10) as u8,
        ]
    }
}

proof fn lemma_comma_bytes_ok(n: nat)
    ensures
        chars_of(comma_bytes(n)) == comma_str(n),
        all_ascii(comma_bytes(n)),
    decreases n,
{
    if n < 1000 {
        lemma_digits_bytes_ok(n);
    } else {
        lemma_comma_bytes_ok(n / 1000);
        assert(chars_of(comma_bytes(n)) =~= comma_str(n));
        assert forall|i: int| 0 <= i < comma_bytes(n).len() implies comma_bytes(n)[i]
            < 128 by {
            if i < comma_bytes(n / 1000).len() {
                assert(comma_bytes(n)[i] == comma_bytes(n / 1000)[i]);
            }
        }
    }
}

/// Appends the digits of `n` with thousands separators.
fn push_comma_u64(out: &mut Vec<u8>, n: u64)
    ensures
        final(out)@ == old(out)@ + comma_bytes(n as nat),
    decreases n,
{
    proof {
        reveal_with_fuel(comma_bytes, 2);
    }
    if n < 1000 {
        push_dec(out, n);
    } else {
        push_comma_u64(out, n / 1000);
        out.push(44);
        let r = n % 1000;
        out.push(48 + (r / 100) as u8);
        out.push(48 + (r / 10 % 10) as u8);
        out.push(48 + (r % 10) as u8);
        assert(out@ =~= old(out)@ + comma_bytes(n as nat));
    }
}

proof fn lemma_trim_zeros_len(s: Seq<char>)
    ensures
        trim_zeros(s).len() <= s.len(),
    decreases s.len(),
{
    if s.len() > 0 && s.last() == '0' {
        lemma_trim_zeros_len(s.drop_last());
    }
}

/// If trimming removes everything, every character was a zero digit.
proof fn lemma_trim_zeros_empty(s: Seq<char>)
    requires
        trim_zeros(s).len() == 0,
    ensures
        forall|i: int| 0 <= i < s.len() ==> s[i] == '0',
    decreases s.len(),
{
    if s.len() > 0 {
        if s.last() == '0' {
            lemma_trim_zeros_empty(s.drop_last());
            assert forall|i: int| 0 <= i < s.len() implies s[i] == '0' by {
                if i < s.len() - 1 {
                    assert(s.drop_last()[i] == s[i]);
                }
            }
        }
    }
}

/// A positive fraction keeps at least one digit after trimming.
proof fn lemma_trim_pad6_nonempty(frac: nat)
    requires
        0 < frac < 1_000_000,
    ensures
        trim_zeros(pad6(frac)).len() > 0,
{
    if trim_zeros(pad6(frac)).len() == 0 {
        lemma_trim_zeros_empty(pad6(frac));
        assert(pad6(frac)[0] == '0');
        assert(pad6(frac)[1] == '0');
        assert(pad6(frac)[2] == '0');
        assert(pad6(frac)[3] == '0');
        assert(pad6(frac)[4] == '0');
        assert(pad6(frac)[5] == '0');
        assert((frac / 100000) as int % 10 == 0);
        assert(frac / 100000 == 0) by {
            assert(frac / 100000 < 10);
        }
        assert(frac / 10000 == 0) by {
            assert(frac / 10000 < 10);
        }
        assert(frac / 1000 == 0);
        assert(frac / 100 == 0);
        assert(frac / 10 == 0);
        assert(frac == 0);
    }
}

/// Appends the natural decimal form of a value in micro-units.
pub(crate) fn push_micros(out: &mut Vec<u8>, m: i64)
    requires
        -MAX_STAT_MICROS <= m <= MAX_STAT_MICROS,
    ensures
        chars_of(final(out)@) == chars_of(old(out)@) + render_micros(m as int),
        all_ascii(old(out)@) ==> all_ascii(final(out)@),
{
    let ghost start = out@;
    let neg: bool = m < 0;
    let a: u64 = if neg {
        out.push(45);
        assert(chars_of(out@) =~= chars_of(start) + seq!['-']);
        (-m) as u64
    } else {
        m as u64
    };
    let ghost mid = out@;
    let units: u64 = a / 1_000_000;
    let frac: u64 = a % 1_000_000;
    push_dec(out, units);
    proof {
        lemma_digits_bytes_ok(units as nat);
        lemma_chars_of_add(mid, digits_bytes(units as nat));
    }
    if frac > 0 {
        out.push(46);
        assert(chars_of(out@) =~= chars_of(mid) + dec_str(units as nat) + seq!['.']);
        let mut tail: Vec<u8> = Vec::new();
        tail.push(48 + (frac / 100000) as u8);
        tail.push(48 + (frac / 10000 % 10) as u8);
        tail.push(48 + (frac / 1000 % 10) as u8);
        tail.push(48 + (frac / 100 % 10) as u8);
        tail.push(48 + (frac / 10 % 10) as u8);
        tail.push(48 + (frac % 10) as u8);
        assert(chars_of(tail@) =~= pad6(frac as nat));
        proof {
            lemma_trim_pad6_nonempty(frac as nat);
        }
        loop
            invariant
                0 < frac < 1_000_000,
                trim_zeros(chars_of(tail@)) == trim_zeros(pad6(frac as nat)),
                all_ascii(tail@),
                tail@.len() > 0,
            ensures
                all_ascii(tail@),
                chars_of(tail@) == trim_zeros(pad6(frac as nat)),
            decreases tail@.len(),
        {
            let last = tail[tail.len() - 1];
            if last != 48 {
                assert(chars_of(tail@).last() != '0');
                assert(trim_zeros(chars_of(tail@)) == chars_of(tail@));
                break;
            }
            let ghost before = tail@;
            tail.pop();
            proof {
                assert(chars_of(before).last() == '0');
                assert(chars_of(tail@) =~= chars_of(before).drop_last());
                lemma_trim_pad6_nonempty(frac as nat);
                lemma_trim_zeros_len(chars_of(tail@));
            }
        }
        let ghost dotted = out@;
        let ghost kept = tail@;
        out.append(&mut tail);
        proof {
            lemma_chars_of_add(dotted, kept);
            assert(chars_of(out@) =~= chars_of(start) + render_micros(m as int));
        }
    } else {
        assert(chars_of(out@) =~= chars_of(start) + render_micros(m as int));
    }
}

/// Renders `n` in decimal with a comma between each group of three digits.
pub fn format_u64(n: u64) -> (s: String)
    ensures
        s@ == comma_str(n as nat),
{
    let mut out: Vec<u8> = Vec::new();
    push_comma_u64(&mut out, n);
    proof {
        lemma_comma_bytes_ok(n as nat);
        assert(out@ =~= comma_bytes(n as nat));
    }
    string_from_ascii(out)
}

} // verus!
