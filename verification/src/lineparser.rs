//! The line tokenizer: raw text to an ordered sequence of letter/value
//! codes.  A line is a run of fields, each an ASCII letter followed by the
//! digits of its value; a line opening with `(` is a comment.  G, M and T
//! carry small integers; the axis letters and F carry signed decimals, held
//! in thousandths.  Exponent notation is not part of the command language.

use vstd::prelude::*;

use crate::errors::GcodeError;
use crate::fixed::PARSE_LIMIT;
use vstd::string::StringSliceAdditionalSpecFns;

verus! {

/// One letter/value pair of a line.
#[derive(Clone, Copy, Debug, PartialEq, Eq, Structural)]
pub enum Codes {
    G(u8),
    M(u8),
    T(u8),
    X(i64),
    Y(i64),
    Z(i64),
    I(i64),
    J(i64),
    K(i64),
    F(i64),
}

/// A code's value is within the magnitude the parser accepts.
pub open spec fn code_bounded(c: Codes) -> bool {
    match c {
        Codes::G(_) => true,
        Codes::M(_) => true,
        Codes::T(_) => true,
        Codes::X(v) => -PARSE_LIMIT <= v <= PARSE_LIMIT,
        Codes::Y(v) => -PARSE_LIMIT <= v <= PARSE_LIMIT,
        Codes::Z(v) => -PARSE_LIMIT <= v <= PARSE_LIMIT,
        Codes::I(v) => -PARSE_LIMIT <= v <= PARSE_LIMIT,
        Codes::J(v) => -PARSE_LIMIT <= v <= PARSE_LIMIT,
        Codes::K(v) => -PARSE_LIMIT <= v <= PARSE_LIMIT,
        Codes::F(v) => -PARSE_LIMIT <= v <= PARSE_LIMIT,
    }
}

/// An ASCII letter.
pub open spec fn is_letter(b: u8) -> bool {
    (65 <= b <= 90) || (97 <= b <= 122)
}

/// The upper-case form of an ASCII letter.
pub open spec fn to_upper(b: u8) -> u8 {
    if 97 <= b <= 122 {
        (b - 32) as u8
    } else {
        b
    }
}

/// ASCII whitespace, as trimming removes it.
pub open spec fn is_space(b: u8) -> bool {
    b == 32 || b == 9 || b == 10 || b == 13
}

/// An ASCII decimal digit.
pub open spec fn is_digit(b: u8) -> bool {
    48 <= b <= 57
}

/// Every byte is a digit.
pub open spec fn all_digits(s: Seq<u8>) -> bool {
    forall|i: int| 0 <= i < s.len() ==> is_digit(#[trigger] s[i])
}

/// The index of the first non-space byte at or after `i`.
pub open spec fn trim_start_idx(s: Seq<u8>, i: int) -> int
    decreases s.len() - i,
{
    if 0 <= i < s.len() && is_space(s[i]) {
        trim_start_idx(s, i + 1)
    } else {
        i
    }
}

/// The index just past the last non-space byte at or before `j`.
pub open spec fn trim_end_idx(s: Seq<u8>, j: int) -> int
    decreases j,
{
    if 0 < j <= s.len() && is_space(s[j - 1]) {
        trim_end_idx(s, j - 1)
    } else {
        j
    }
}

/// The byte run with leading and trailing whitespace removed.
pub open spec fn spec_trim(s: Seq<u8>) -> Seq<u8> {
    let a = trim_start_idx(s, 0);
    let b = trim_end_idx(s, s.len() as int);
    if a < b {
        s.subrange(a, b)
    } else {
        Seq::empty()
    }
}

/// The decimal value of a digit run.
pub open spec fn dec_val(s: Seq<u8>) -> int
    decreases s.len(),
{
    if s.len() == 0 {
        0
    } else {
        dec_val(s.drop_last()) * 10 + (s.last() - 48)
    }
}

/// An optional leading plus sign stripped.
pub open spec fn strip_plus(s: Seq<u8>) -> Seq<u8> {
    if s.len() > 0 && s[0] == 43 {
        s.drop_first()
    } else {
        s
    }
}

/// A small nonnegative integer, as G, M and T values are read: an optional
/// plus sign, then digits, with a value of at most 255.
pub open spec fn spec_parse_u8(s: Seq<u8>) -> Option<u8> {
    let t = strip_plus(s);
    if t.len() >= 1 && all_digits(t) && dec_val(t) <= 255 {
        Some(dec_val(t) as u8)
    } else {
        None
    }
}

/// The index of the first decimal point at or after `i`, or the length.
pub open spec fn first_dot(s: Seq<u8>, i: int) -> int
    decreases s.len() - i,
{
    if 0 <= i < s.len() {
        if s[i] == 46 {
            i
        } else {
            first_dot(s, i + 1)
        }
    } else {
        s.len() as int
    }
}

/// The first three fractional digits as thousandths, shorter runs padded
/// with zeros, longer runs truncated.
pub open spec fn frac3(f: Seq<u8>) -> int {
    if f.len() >= 3 {
        dec_val(f.subrange(0, 3))
    } else if f.len() == 2 {
        dec_val(f) * 10
    } else if f.len() == 1 {
        dec_val(f) * 100
    } else {
        0
    }
}

/// A signed decimal in thousandths, as axis and feed values are read: an
/// optional sign, digits, an optional point and more digits, at least one
/// digit in all, the magnitude within `PARSE_LIMIT`.
pub open spec fn spec_parse_fixed(s: Seq<u8>) -> Option<i64> {
    if s.len() == 0 {
        None
    } else {
        let neg = s[0] == 45;
        let t = if s[0] == 45 || s[0] == 43 {
            s.drop_first()
        } else {
            s
        };
        let dp = first_dot(t, 0);
        let ip = t.subrange(0, dp);
        let fp = if dp < t.len() {
            t.subrange(dp + 1, t.len() as int)
        } else {
            Seq::empty()
        };
        if !(all_digits(ip) && all_digits(fp)) {
            None
        } else if ip.len() + fp.len() == 0 {
            None
        } else {
            let mag = dec_val(ip) * 1000 + frac3(fp);
            if mag > PARSE_LIMIT {
                None
            } else if neg {
                Some((-mag) as i64)
            } else {
                Some(mag as i64)
            }
        }
    }
}

/// The code one letter and its trimmed value text denote: a recognised
/// letter with unreadable text is a syntax error; an unrecognised letter is
/// ignored with its text.
pub open spec fn spec_create_code(code: u8, acc: Seq<u8>) -> Result<Option<Codes>, GcodeError> {
    let t = spec_trim(acc);
    if code == 71 {  // G
        match spec_parse_u8(t) {
            Some(v) => Ok(Some(Codes::G(v))),
            None => Err(GcodeError::SyntaxError),
        }
    } else if code == 77 {  // M
        match spec_parse_u8(t) {
            Some(v) => Ok(Some(Codes::M(v))),
            None => Err(GcodeError::SyntaxError),
        }
    } else if code == 84 {  // T
        match spec_parse_u8(t) {
            Some(v) => Ok(Some(Codes::T(v))),
            None => Err(GcodeError::SyntaxError),
        }
    } else if code == 88 {  // X
        match spec_parse_fixed(t) {
            Some(v) => Ok(Some(Codes::X(v))),
            None => Err(GcodeError::SyntaxError),
        }
    } else if code == 89 {  // Y
        match spec_parse_fixed(t) {
            Some(v) => Ok(Some(Codes::Y(v))),
            None => Err(GcodeError::SyntaxError),
        }
    } else if code == 90 {  // Z
        match spec_parse_fixed(t) {
            Some(v) => Ok(Some(Codes::Z(v))),
            None => Err(GcodeError::SyntaxError),
        }
    } else if code == 73 {  // I
        match spec_parse_fixed(t) {
            Some(v) => Ok(Some(Codes::I(v))),
            None => Err(GcodeError::SyntaxError),
        }
    } else if code == 74 {  // J
        match spec_parse_fixed(t) {
            Some(v) => Ok(Some(Codes::J(v))),
            None => Err(GcodeError::SyntaxError),
        }
    } else if code == 75 {  // K
        match spec_parse_fixed(t) {
            Some(v) => Ok(Some(Codes::K(v))),
            None => Err(GcodeError::SyntaxError),
        }
    } else if code == 70 {  // F
        match spec_parse_fixed(t) {
            Some(v) => Ok(Some(Codes::F(v))),
            None => Err(GcodeError::SyntaxError),
        }
    } else {
        Ok(None)
    }
}

/// Finishes the pending field: no pending letter yields nothing; a letter
/// with no text at all is a syntax error.
pub open spec fn spec_process_letter(cl: Option<u8>, acc: Seq<u8>) -> Result<
    Option<Codes>,
    GcodeError,
> {
    match cl {
        None => Ok(None),
        Some(l) => if acc.len() == 0 {
            Err(GcodeError::SyntaxError)
        } else {
            spec_create_code(l, acc)
        },
    }
}

/// The tokenizer's walk over a line from position `i`, with the pending
/// letter, its accumulated value text, and the codes read so far.
pub open spec fn spec_lex(
    s: Seq<u8>,
    i: int,
    cl: Option<u8>,
    acc: Seq<u8>,
    out: Seq<Codes>,
) -> Result<Seq<Codes>, GcodeError>
    decreases s.len() - i,
{
    if i < 0 || i >= s.len() {
        match spec_process_letter(cl, acc) {
            Err(e) => Err(e),
            Ok(None) => Ok(out),
            Ok(Some(c)) => Ok(out.push(c)),
        }
    } else if is_letter(s[i]) {
        match spec_process_letter(cl, acc) {
            Err(e) => Err(e),
            Ok(opt) => spec_lex(
                s,
                i + 1,
                Some(to_upper(s[i])),
                Seq::empty(),
                match opt {
                    None => out,
                    Some(c) => out.push(c),
                },
            ),
        }
    } else {
        spec_lex(s, i + 1, cl, acc.push(s[i]), out)
    }
}

/// Every code of a sequence has its value within the accepted magnitude.
pub open spec fn codes_bounded(s: Seq<Codes>) -> bool {
    forall|i: int| 0 <= i < s.len() ==> code_bounded(#[trigger] s[i])
}

/// What a whole line tokenizes to: nothing for a comment or a line without
/// codes, else its ordered codes, or the syntax error the walk hits.
pub open spec fn spec_parse_line(s: Seq<u8>) -> Result<Option<Seq<Codes>>, GcodeError> {
    if s.len() > 0 && s[0] == 40 {
        Ok(None)
    } else {
        match spec_lex(s, 0, None, Seq::empty(), Seq::empty()) {
            Err(e) => Err(e),
            Ok(codes) => if codes.len() == 0 {
                Ok(None)
            } else {
                Ok(Some(codes))
            },
        }
    }
}

/// A code the tokenizer can produce is bounded: small integers always are,
/// and a decimal is only accepted within `PARSE_LIMIT`.
proof fn lemma_create_code_bounded(code: u8, acc: Seq<u8>)
    ensures
        spec_create_code(code, acc) matches Ok(opt) ==> (opt matches Some(c) ==> code_bounded(
            c,
        )),
{
    let t = spec_trim(acc);
    lemma_parse_fixed_bounded(t);
}

/// An accepted decimal is within `PARSE_LIMIT` in magnitude.
proof fn lemma_parse_fixed_bounded(s: Seq<u8>)
    ensures
        spec_parse_fixed(s) matches Some(v) ==> -PARSE_LIMIT <= v <= PARSE_LIMIT,
{
    if s.len() > 0 {
        let t = if s[0] == 45 || s[0] == 43 {
            s.drop_first()
        } else {
            s
        };
        let dp = first_dot(t, 0);
        let ip = t.subrange(0, dp);
        let fp = if dp < t.len() {
            t.subrange(dp + 1, t.len() as int)
        } else {
            Seq::<u8>::empty()
        };
        if all_digits(ip) && all_digits(fp) {
            lemma_dec_val_nonneg(ip);
            lemma_frac3_nonneg(fp);
        }
    }
}

/// Finishing a pending field yields a bounded code, where it yields one.
proof fn lemma_process_letter_bounded(cl: Option<u8>, acc: Seq<u8>)
    ensures
        spec_process_letter(cl, acc) matches Ok(opt) ==> (opt matches Some(c) ==> code_bounded(
            c,
        )),
{
    match cl {
        None => {},
        Some(l) => {
            if acc.len() > 0 {
                lemma_create_code_bounded(l, acc);
            }
        },
    }
}

/// The tokenizer's walk only collects bounded codes.
proof fn lemma_lex_bounded(s: Seq<u8>, i: int, cl: Option<u8>, acc: Seq<u8>, out: Seq<Codes>)
    requires
        codes_bounded(out),
    ensures
        spec_lex(s, i, cl, acc, out) matches Ok(cs) ==> codes_bounded(cs),
    decreases s.len() - i,
{
    if i < 0 || i >= s.len() {
        lemma_process_letter_bounded(cl, acc);
        match spec_process_letter(cl, acc) {
            Err(_) => {},
            Ok(None) => {},
            Ok(Some(c)) => {
                assert(codes_bounded(out.push(c))) by {
                    assert(forall|k: int|
                        0 <= k < out.len() ==> code_bounded(#[trigger] out.push(c)[k]));
                }
            },
        }
    } else if is_letter(s[i]) {
        lemma_process_letter_bounded(cl, acc);
        match spec_process_letter(cl, acc) {
            Err(_) => {},
            Ok(opt) => {
                let out2 = match opt {
                    None => out,
                    Some(c) => out.push(c),
                };
                assert(codes_bounded(out2)) by {
                    if opt is Some {
                        assert(forall|k: int|
                            0 <= k < out.len() ==> code_bounded(
                                #[trigger] out.push(opt->0)[k],
                            ));
                    }
                }
                lemma_lex_bounded(s, i + 1, Some(to_upper(s[i])), Seq::empty(), out2);
            },
        }
    } else {
        lemma_lex_bounded(s, i + 1, cl, acc.push(s[i]), out);
    }
}

/// Whatever a line tokenizes to is a sequence of bounded codes.
pub proof fn lemma_parse_line_bounded(s: Seq<u8>)
    ensures
        spec_parse_line(s) matches Ok(opt) ==> (opt matches Some(cs) ==> codes_bounded(cs)),
{
    if !(s.len() > 0 && s[0] == 40) {
        lemma_lex_bounded(s, 0, None, Seq::empty(), Seq::empty());
    }
}

/// Digit runs have nonnegative values.
proof fn lemma_dec_val_nonneg(s: Seq<u8>)
    requires
        all_digits(s),
    ensures
        dec_val(s) >= 0,
    decreases s.len(),
{
    if s.len() > 0 {
        assert forall|i: int| 0 <= i < s.drop_last().len() implies is_digit(
            #[trigger] s.drop_last()[i],
        ) by {
            assert(s.drop_last()[i] == s[i]);
        }
        lemma_dec_val_nonneg(s.drop_last());
    }
}

/// Reading one more digit multiplies the prefix value by ten and adds it.
proof fn lemma_dec_val_step(s: Seq<u8>, i: int)
    requires
        0 <= i < s.len(),
    ensures
        dec_val(s.subrange(0, i + 1)) == dec_val(s.subrange(0, i)) * 10 + (s[i] - 48),
{
    let a = s.subrange(0, i + 1);
    assert(a.drop_last() =~= s.subrange(0, i));
    assert(a.last() == s[i]);
}

/// A run of digits restricted to a window is still a run of digits.
proof fn lemma_all_digits_subrange(s: Seq<u8>, a: int, b: int)
    requires
        all_digits(s),
        0 <= a <= b <= s.len(),
    ensures
        all_digits(s.subrange(a, b)),
{
    assert forall|i: int| 0 <= i < s.subrange(a, b).len() implies is_digit(
        #[trigger] s.subrange(a, b)[i],
    ) by {
        assert(s.subrange(a, b)[i] == s[a + i]);
    }
}

/// Appending digits never shrinks the value: the whole run is worth at
/// least any of its prefixes.
proof fn lemma_dec_val_monotone(s: Seq<u8>, i: int)
    requires
        all_digits(s),
        0 <= i <= s.len(),
    ensures
        dec_val(s) >= dec_val(s.subrange(0, i)) >= 0,
    decreases s.len() - i,
{
    lemma_all_digits_subrange(s, 0, i);
    lemma_dec_val_nonneg(s.subrange(0, i));
    if i < s.len() {
        lemma_dec_val_step(s, i);
        lemma_dec_val_monotone(s, i + 1);
    } else {
        assert(s.subrange(0, i) =~= s);
    }
}

/// The byte vector with outer whitespace removed, exactly as `spec_trim`
/// states it.
fn trimmed(acc: &Vec<u8>) -> (r: Vec<u8>)
    ensures
        r@ == spec_trim(acc@),
{
    let n = acc.len();
    let mut a: usize = 0;
    while a < n && (acc[a] == 32 || acc[a] == 9 || acc[a] == 10 || acc[a] == 13)
        invariant
            0 <= a <= n,
            n == acc@.len(),
            trim_start_idx(acc@, 0) == trim_start_idx(acc@, a as int),
        decreases n - a,
    {
        a = a + 1;
    }
    let mut b: usize = n;
    while b > 0 && (acc[b - 1] == 32 || acc[b - 1] == 9 || acc[b - 1] == 10 || acc[b - 1] == 13)
        invariant
            0 <= b <= n,
            n == acc@.len(),
            trim_end_idx(acc@, n as int) == trim_end_idx(acc@, b as int),
        decreases b,
    {
        b = b - 1;
    }
    let mut out: Vec<u8> = Vec::new();
    if a < b {
        let mut i = a;
        while i < b
            invariant
                a <= i <= b <= n,
                n == acc@.len(),
                out@ == acc@.subrange(a as int, i as int),
            decreases b - i,
        {
            out.push(acc[i]);
            proof {
                assert(out@ =~= acc@.subrange(a as int, i + 1));
            }
            i = i + 1;
        }
    }
    out
}

/// Reads a small nonnegative integer, exactly as `spec_parse_u8` states it.
fn parse_u8_bytes(t: &Vec<u8>) -> (r: Option<u8>)
    ensures
        r == spec_parse_u8(t@),
{
    let ghost t2 = strip_plus(t@);
    let n = t.len();
    let start: usize = if n > 0 && t[0] == 43 {
        1
    } else {
        0
    };
    proof {
        assert(t2 =~= t@.subrange(start as int, n as int));
    }
    if n == start {
        return None;
    }
    let mut val: u32 = 0;
    let mut i = start;
    while i < n
        invariant
            start <= i <= n,
            n == t@.len(),
            t2 == strip_plus(t@),
            t2 =~= t@.subrange(start as int, n as int),
            all_digits(t2.subrange(0, i - start)),
            val == dec_val(t2.subrange(0, i - start)),
            val <= 255,
        decreases n - i,
    {
        let d = t[i];
        proof {
            assert(t2[i - start] == d);
        }
        if !(48 <= d && d <= 57) {
            proof {
                assert(!all_digits(t2));
            }
            return None;
        }
        proof {
            lemma_dec_val_step(t2, i - start);
        }
        let v2: u32 = val * 10 + ((d - 48) as u32);
        if v2 > 255 {
            proof {
                if all_digits(t2) {
                    lemma_dec_val_monotone(t2, i - start + 1);
                }
            }
            return None;
        }
        val = v2;
        proof {
            assert forall|j: int| 0 <= j < i + 1 - start implies is_digit(
                #[trigger] t2.subrange(0, i + 1 - start)[j],
            ) by {
                assert(t2.subrange(0, i + 1 - start)[j] == t2[j]);
                if j < i - start {
                    assert(t2.subrange(0, i - start as int)[j] == t2[j]);
                }
            }
        }
        i = i + 1;
    }
    proof {
        assert(t2.subrange(0, (n - start) as int) =~= t2);
    }
    Some(val as u8)
}

/// Reads a signed decimal in thousandths, exactly as `spec_parse_fixed`
/// states it.
fn parse_fixed_bytes(t: &Vec<u8>) -> (r: Option<i64>)
    ensures
        r == spec_parse_fixed(t@),
        r matches Some(v) ==> -PARSE_LIMIT <= v <= PARSE_LIMIT,
{
    let n = t.len();
    if n == 0 {
        return None;
    }
    let b0 = t[0];
    let neg = b0 == 45;
    let start: usize = if b0 == 45 || b0 == 43 {
        1
    } else {
        0
    };
    let ghost t2 = if t@[0] == 45 || t@[0] == 43 {
        t@.drop_first()
    } else {
        t@
    };
    proof {
        assert(t2 =~= t@.subrange(start as int, n as int));
    }

    let mut dp = start;
    while dp < n && t[dp] != 46
        invariant
            start <= dp <= n,
            n == t@.len(),
            n > 0,
            start == (if t@[0] == 45 || t@[0] == 43 {
                1int
            } else {
                0int
            }),
            t2 == (if t@[0] == 45 || t@[0] == 43 {
                t@.drop_first()
            } else {
                t@
            }),
            t2 =~= t@.subrange(start as int, n as int),
            first_dot(t2, 0) == first_dot(t2, dp - start),
        decreases n - dp,
    {
        dp = dp + 1;
    }
    let ghost ip = t2.subrange(0, dp - start);
    let ghost fp = if dp < n {
        t2.subrange(dp - start + 1, t2.len() as int)
    } else {
        Seq::<u8>::empty()
    };
    proof {
        assert(first_dot(t2, 0) == dp - start);
    }

    let mut val: i64 = 0;
    let mut i = start;
    while i < dp
        invariant
            start <= i <= dp <= n,
            n == t@.len(),
            n > 0,
            neg == (t@[0] == 45),
            start == (if t@[0] == 45 || t@[0] == 43 {
                1int
            } else {
                0int
            }),
            t2 == (if t@[0] == 45 || t@[0] == 43 {
                t@.drop_first()
            } else {
                t@
            }),
            t2 =~= t@.subrange(start as int, n as int),
            ip == t2.subrange(0, dp - start),
            first_dot(t2, 0) == dp - start,
            fp == (if dp < n {
                t2.subrange(dp - start + 1, t2.len() as int)
            } else {
                Seq::<u8>::empty()
            }),
            all_digits(ip.subrange(0, i - start)),
            val == dec_val(ip.subrange(0, i - start)),
            0 <= val <= PARSE_LIMIT,
        decreases dp - i,
    {
        let d = t[i];
        proof {
            assert(ip[i - start] == t2[i - start]);
            assert(t2[i - start] == d);
        }
        if !(48 <= d && d <= 57) {
            proof {
                assert(!all_digits(ip));
            }
            return None;
        }
        proof {
            lemma_dec_val_step(ip, i - start);
        }
        let v2: i64 = val * 10 + ((d - 48) as i64);
        if v2 > PARSE_LIMIT {
            proof {
                if all_digits(ip) && all_digits(fp) {
                    lemma_dec_val_monotone(ip, i - start + 1);
                    lemma_frac3_nonneg(fp);
                    assert(dec_val(ip) * 1000 >= dec_val(ip)) by (nonlinear_arith)
                        requires
                            dec_val(ip) >= 0,
                    ;
                }
            }
            return None;
        }
        val = v2;
        proof {
            assert forall|j: int| 0 <= j < i + 1 - start implies is_digit(
                #[trigger] ip.subrange(0, i + 1 - start)[j],
            ) by {
                assert(ip.subrange(0, i + 1 - start)[j] == ip[j]);
                if j < i - start {
                    assert(ip.subrange(0, i - start as int)[j] == ip[j]);
                }
            }
        }
        i = i + 1;
    }
    proof {
        assert(ip.subrange(0, (dp - start) as int) =~= ip);
    }

    let mut fval: i64 = 0;
    let mut cnt: usize = 0;
    if dp < n {
        let mut j = dp + 1;
        while j < n
            invariant
                dp + 1 <= j <= n,
                n == t@.len(),
                n > 0,
                neg == (t@[0] == 45),
                start == (if t@[0] == 45 || t@[0] == 43 {
                    1int
                } else {
                    0int
                }),
                t2 == (if t@[0] == 45 || t@[0] == 43 {
                    t@.drop_first()
                } else {
                    t@
                }),
                t2 =~= t@.subrange(start as int, n as int),
                start <= dp < n,
                first_dot(t2, 0) == dp - start,
                ip == t2.subrange(0, dp - start),
                all_digits(ip),
                val == dec_val(ip),
                0 <= val <= PARSE_LIMIT,
                fp == t2.subrange(dp - start + 1, t2.len() as int),
                all_digits(fp.subrange(0, j - dp - 1)),
                j - dp - 1 <= 3 ==> cnt == j - dp - 1,
                j - dp - 1 > 3 ==> cnt == 3,
                fval == dec_val(fp.subrange(0, cnt as int)),
                cnt == 0 ==> fval == 0,
                cnt == 1 ==> 0 <= fval <= 9,
                cnt == 2 ==> 0 <= fval <= 99,
                cnt == 3 ==> 0 <= fval <= 999,
            decreases n - j,
        {
            let d = t[j];
            proof {
                assert(fp[j - dp - 1] == t2[j - start]);
                assert(t2[j - start] == d);
            }
            if !(48 <= d && d <= 57) {
                proof {
                    assert(!all_digits(fp));
                }
                return None;
            }
            if cnt < 3 {
                proof {
                    lemma_dec_val_step(fp, cnt as int);
                }
                fval = fval * 10 + ((d - 48) as i64);
                cnt = cnt + 1;
            }
            proof {
                assert forall|k: int| 0 <= k < j + 1 - dp - 1 implies is_digit(
                    #[trigger] fp.subrange(0, j + 1 - dp - 1)[k],
                ) by {
                    assert(fp.subrange(0, j + 1 - dp - 1)[k] == fp[k]);
                    if k < j - dp - 1 {
                        assert(fp.subrange(0, j - dp - 1)[k] == fp[k]);
                    }
                }
            }
            j = j + 1;
        }
        proof {
            assert(fp.subrange(0, (n - dp - 1) as int) =~= fp);
        }
    }

    let f3: i64 = if dp >= n {
        0
    } else {
        let flen = n - dp - 1;
        if flen >= 3 {
            fval
        } else if flen == 2 {
            fval * 10
        } else if flen == 1 {
            fval * 100
        } else {
            0
        }
    };
    proof {
        assert(f3 == frac3(fp));
        assert(0 <= f3 <= 999);
    }

    if dp == start && (dp >= n || n - dp - 1 == 0) {
        return None;
    }

    let mag = val * 1000 + f3;
    if mag > PARSE_LIMIT {
        return None;
    }
    if neg {
        Some(-mag)
    } else {
        Some(mag)
    }
}

/// The fractional contribution is never negative.
proof fn lemma_frac3_nonneg(f: Seq<u8>)
    requires
        all_digits(f),
    ensures
        frac3(f) >= 0,
{
    if f.len() >= 3 {
        lemma_all_digits_subrange(f, 0, 3);
        lemma_dec_val_nonneg(f.subrange(0, 3));
    } else {
        lemma_dec_val_nonneg(f);
    }
}

/// Turns one letter and its raw value text into a code, exactly as
/// `spec_create_code` states it.
fn create_code(code: u8, acc: &Vec<u8>) -> (r: Result<Option<Codes>, GcodeError>)
    ensures
        r == spec_create_code(code, acc@),
        r matches Ok(Some(c)) ==> code_bounded(c),
{
    let t = trimmed(acc);
    if code == 71 {
        match parse_u8_bytes(&t) {
            Some(v) => Ok(Some(Codes::G(v))),
            None => Err(GcodeError::SyntaxError),
        }
    } else if code == 77 {
        match parse_u8_bytes(&t) {
            Some(v) => Ok(Some(Codes::M(v))),
            None => Err(GcodeError::SyntaxError),
        }
    } else if code == 84 {
        match parse_u8_bytes(&t) {
            Some(v) => Ok(Some(Codes::T(v))),
            None => Err(GcodeError::SyntaxError),
        }
    } else if code == 88 {
        match parse_fixed_bytes(&t) {
            Some(v) => Ok(Some(Codes::X(v))),
            None => Err(GcodeError::SyntaxError),
        }
    } else if code == 89 {
        match parse_fixed_bytes(&t) {
            Some(v) => Ok(Some(Codes::Y(v))),
            None => Err(GcodeError::SyntaxError),
        }
    } else if code == 90 {
        match parse_fixed_bytes(&t) {
            Some(v) => Ok(Some(Codes::Z(v))),
            None => Err(GcodeError::SyntaxError),
        }
    } else if code == 73 {
        match parse_fixed_bytes(&t) {
            Some(v) => Ok(Some(Codes::I(v))),
            None => Err(GcodeError::SyntaxError),
        }
    } else if code == 74 {
        match parse_fixed_bytes(&t) {
            Some(v) => Ok(Some(Codes::J(v))),
            None => Err(GcodeError::SyntaxError),
        }
    } else if code == 75 {
        match parse_fixed_bytes(&t) {
            Some(v) => Ok(Some(Codes::K(v))),
            None => Err(GcodeError::SyntaxError),
        }
    } else if code == 70 {
        match parse_fixed_bytes(&t) {
            Some(v) => Ok(Some(Codes::F(v))),
            None => Err(GcodeError::SyntaxError),
        }
    } else {
        Ok(None)
    }
}

/// Finishes the pending field, exactly as `spec_process_letter` states it.
fn process_letter(cl: Option<u8>, acc: &Vec<u8>) -> (r: Result<Option<Codes>, GcodeError>)
    ensures
        r == spec_process_letter(cl, acc@),
        r matches Ok(Some(c)) ==> code_bounded(c),
{
    match cl {
        None => Ok(None),
        Some(l) => {
            if acc.len() == 0 {
                Err(GcodeError::SyntaxError)
            } else {
                create_code(l, acc)
            }
        },
    }
}

/// Tokenizes one line of text: `None` for a comment or a line without
/// codes, the ordered letter/value codes otherwise, or the syntax error the
/// line holds, exactly as `spec_parse_line` states it over the line's
/// bytes.
pub fn parse_line(line: &str) -> (r: Result<Option<Vec<Codes>>, GcodeError>)
    ensures
        match spec_parse_line(line.spec_bytes()) {
            Ok(opt) => {
                &&& r matches Ok(ov)
                &&& (ov is Some <==> opt is Some)
                &&& (ov matches Some(v) ==> opt matches Some(cs) && v@ == cs && codes_bounded(
                    v@,
                ))
            },
            Err(e) => r == Err::<Option<Vec<Codes>>, GcodeError>(e),
        },
{
    let bytes = line.as_bytes();
    let n = bytes.len();
    if n > 0 && bytes[0] == 40 {
        return Ok(None);
    }
    let mut out: Vec<Codes> = Vec::new();
    let mut acc: Vec<u8> = Vec::new();
    let mut cl: Option<u8> = None;
    let mut i: usize = 0;
    while i < n
        invariant
            0 <= i <= n,
            n == bytes@.len(),
            bytes@ == line.spec_bytes(),
            n == 0 || bytes@[0] != 40,
            spec_lex(bytes@, 0, None, Seq::empty(), Seq::empty()) == spec_lex(
                bytes@,
                i as int,
                cl,
                acc@,
                out@,
            ),
            codes_bounded(out@),
        decreases n - i,
    {
        let b = bytes[i];
        if (65 <= b && b <= 90) || (97 <= b && b <= 122) {
            match process_letter(cl, &acc) {
                Ok(Some(c)) => {
                    out.push(c);
                    proof {
                        assert(codes_bounded(out@)) by {
                            assert(forall|k: int|
                                0 <= k < out@.len() - 1 ==> code_bounded(#[trigger] out@[k]));
                        }
                    }
                },
                Ok(None) => {},
                Err(e) => {
                    return Err(e);
                },
            }
            cl = Some(
                if 97 <= b && b <= 122 {
                    b - 32
                } else {
                    b
                },
            );
            acc = Vec::new();
        } else {
            acc.push(b);
        }
        i = i + 1;
    }
    match process_letter(cl, &acc) {
        Ok(Some(c)) => {
            out.push(c);
            proof {
                assert(codes_bounded(out@)) by {
                    assert(forall|k: int|
                        0 <= k < out@.len() - 1 ==> code_bounded(#[trigger] out@[k]));
                }
            }
        },
        Ok(None) => {},
        Err(e) => {
            return Err(e);
        },
    }
    if out.len() == 0 {
        Ok(None)
    } else {
        Ok(Some(out))
    }
}

} // verus!
