//! LSP envelope framing.
//!
//! On the child-process side every message travels as
//! `Content-Length: N\r\n\r\n` followed by exactly `N` bytes of payload.
//! `encode_frame` builds such a frame; `decode_frame` reads one from the
//! front of a buffer. The header section is one or more `Name: value` lines,
//! each ended by CRLF, closed by an empty line; only `Content-Length` is
//! honored and every other header is ignored. A `Content-Length` value keeps
//! at most nineteen significant digits; anything longer cannot describe a
//! payload that fits in memory and the frame is rejected as malformed.

use vstd::prelude::*;

use vstd::slice::slice_subrange;

verus! {

pub const CR: u8 = 13;
pub const LF: u8 = 10;
pub const SPACE: u8 = 32;
pub const COLON: u8 = 58;
pub const DIGIT_ZERO: u8 = 48;

/// The bytes of `Content-Length`.
pub open spec fn cl_name() -> Seq<u8> {
    seq![67u8, 111u8, 110u8, 116u8, 101u8, 110u8, 116u8, 45u8, 76u8, 101u8, 110u8, 103u8, 116u8, 104u8]
}

/// The bytes of `Content-Length: `, the prefix every encoded frame starts with.
pub open spec fn cl_prefix() -> Seq<u8> {
    cl_name() + seq![COLON, SPACE]
}

pub open spec fn is_digit(b: u8) -> bool {
    DIGIT_ZERO <= b <= 57
}

pub open spec fn all_digits(s: Seq<u8>) -> bool {
    forall|i: int| 0 <= i < s.len() ==> is_digit(#[trigger] s[i])
}

/// The number written by a digit string, most significant digit first.
pub open spec fn digits_val(s: Seq<u8>) -> nat
    decreases s.len(),
{
    if s.len() == 0 {
        0
    } else {
        (digits_val(s.drop_last()) * 10 + (s.last() - DIGIT_ZERO)) as nat
    }
}

/// The decimal numeral of `n`, most significant digit first, no leading zero.
pub open spec fn dec_bytes(n: nat) -> Seq<u8>
    decreases n,
{
    if n < 10 {
        seq![(DIGIT_ZERO + n) as u8]
    } else {
        dec_bytes(n / 10).push((DIGIT_ZERO + n % 10) as u8)
    }
}

/// `s` without leading zero digits.
pub open spec fn strip_zeros(s: Seq<u8>) -> Seq<u8>
    decreases s.len(),
{
    if s.len() > 0 && s[0] == DIGIT_ZERO {
        strip_zeros(s.drop_first())
    } else {
        s
    }
}

/// `s` without leading spaces.
pub open spec fn trim_left(s: Seq<u8>) -> Seq<u8>
    decreases s.len(),
{
    if s.len() > 0 && s[0] == SPACE {
        trim_left(s.drop_first())
    } else {
        s
    }
}

/// `s` without trailing spaces.
pub open spec fn trim_right(s: Seq<u8>) -> Seq<u8>
    decreases s.len(),
{
    if s.len() > 0 && s.last() == SPACE {
        trim_right(s.drop_last())
    } else {
        s
    }
}

pub open spec fn trim(s: Seq<u8>) -> Seq<u8> {
    trim_right(trim_left(s))
}

/// A `Content-Length` value: digits only, nonempty, at most nineteen
/// significant digits.
pub open spec fn spec_cl_value(s: Seq<u8>) -> Option<nat> {
    if s.len() > 0 && all_digits(s) && strip_zeros(s).len() <= 19 {
        Some(digits_val(s))
    } else {
        None
    }
}

/// Position of the first CRLF at or after `from`, when the buffer holds one.
pub open spec fn spec_line_end(b: Seq<u8>, from: int) -> Option<int>
    decreases b.len() - from,
{
    if from < 0 || from + 2 > b.len() {
        None
    } else if b[from] == CR && b[from + 1] == LF {
        Some(from)
    } else {
        spec_line_end(b, from + 1)
    }
}

/// Position of the first colon in `line` at or after `from`, if any.
pub open spec fn spec_colon(line: Seq<u8>, from: int) -> Option<int>
    decreases line.len() - from,
{
    if from < 0 || from >= line.len() {
        None
    } else if line[from] == COLON {
        Some(from)
    } else {
        spec_colon(line, from + 1)
    }
}

/// Result of scanning the header section.
pub enum HeaderScan {
    /// The buffer ends before the header section does.
    Incomplete,
    /// A line without a colon, a bad `Content-Length` value, or no
    /// `Content-Length` at all.
    Malformed,
    /// The headers are complete: the payload is `length` bytes starting at
    /// `body_start`.
    Complete { length: nat, body_start: int },
}

/// Scans header lines from `from`, carrying the `Content-Length` seen so far.
pub open spec fn spec_scan_headers(b: Seq<u8>, from: int, cl: Option<nat>) -> HeaderScan
    decreases b.len() - from,
{
    match spec_line_end(b, from) {
        None => HeaderScan::Incomplete,
        Some(j) => {
            if !(from <= j && j + 2 <= b.len()) {
                HeaderScan::Malformed
            } else {
                let line = b.subrange(from, j);
                if line.len() == 0 {
                    match cl {
                        Some(n) => HeaderScan::Complete { length: n, body_start: j + 2 },
                        None => HeaderScan::Malformed,
                    }
                } else {
                    match spec_colon(line, 0) {
                        None => HeaderScan::Malformed,
                        Some(c) => {
                            if !(0 <= c < line.len()) {
                                HeaderScan::Malformed
                            } else {
                                let name = line.take(c);
                                let value = trim(line.skip(c + 1));
                                if name == cl_name() {
                                    match spec_cl_value(value) {
                                        Some(n) => spec_scan_headers(b, j + 2, Some(n)),
                                        None => HeaderScan::Malformed,
                                    }
                                } else {
                                    spec_scan_headers(b, j + 2, cl)
                                }
                            }
                        },
                    }
                }
            }
        },
    }
}

/// What `decode_frame` finds at the front of a buffer.
pub enum SpecDecode {
    /// More bytes are needed before a whole frame is present.
    Incomplete,
    /// The bytes at the front can never grow into a valid frame.
    Malformed,
    /// A complete frame: its payload, and how many bytes of the buffer it
    /// used up.
    Frame(Seq<u8>, int),
}

/// The frame at the front of `b`, if any.
pub open spec fn spec_decode(b: Seq<u8>) -> SpecDecode {
    match spec_scan_headers(b, 0, None) {
        HeaderScan::Incomplete => SpecDecode::Incomplete,
        HeaderScan::Malformed => SpecDecode::Malformed,
        HeaderScan::Complete { length, body_start } => {
            if body_start + length <= b.len() {
                SpecDecode::Frame(
                    b.subrange(body_start, body_start + length),
                    body_start + length,
                )
            } else {
                SpecDecode::Incomplete
            }
        },
    }
}

/// The frame that carries `body`.
pub open spec fn frame_of(body: Seq<u8>) -> Seq<u8> {
    cl_prefix() + dec_bytes(body.len()) + seq![CR, LF, CR, LF] + body
}

/// Appends all bytes of `src` to `dst`.
fn append_bytes(dst: &mut Vec<u8>, src: &[u8])
    ensures
        final(dst)@ == old(dst)@ + src@,
{
    dst.extend_from_slice(src);
    proof {
        assert(dst@ =~= old(dst)@ + src@);
    }
}

/// The decimal numeral of `n` as bytes.
fn dec_bytes_of(n: u64) -> (r: Vec<u8>)
    ensures
        r@ == dec_bytes(n as nat),
{
    let mut rev: Vec<u8> = Vec::new();
    let mut m: u64 = n;
    loop
        invariant_except_break
            dec_bytes(n as nat) == dec_bytes(m as nat) + rev@.reverse(),
        ensures
            dec_bytes(n as nat) == rev@.reverse(),
        decreases m,
    {
        let d = (m % 10) as u8;
        let ghost prev = rev@;
        rev.push(DIGIT_ZERO + d);
        proof {
            assert(rev@.reverse() =~= seq![(DIGIT_ZERO + m as nat % 10) as u8] + prev.reverse());
        }
        if m < 10 {
            proof {
                assert(dec_bytes(m as nat) == seq![(DIGIT_ZERO + m as nat) as u8]);
                assert(dec_bytes(n as nat) =~= rev@.reverse());
            }
            break;
        }
        proof {
            assert(dec_bytes(m as nat) == dec_bytes(m as nat / 10).push(
                (DIGIT_ZERO + m as nat % 10) as u8,
            ));
            assert(dec_bytes(m as nat / 10) + rev@.reverse() =~= dec_bytes(m as nat)
                + prev.reverse());
        }
        m = m / 10;
    }
    let mut r: Vec<u8> = Vec::new();
    let mut i: usize = rev.len();
    #[verifier::loop_isolation(false)]
    while i > 0
        invariant
            i <= rev.len(),
            r@ == rev@.reverse().take((rev@.len() - i) as int),
        decreases i,
    {
        i -= 1;
        r.push(rev[i]);
        proof {
            assert(r@ =~= rev@.reverse().take((rev@.len() - i) as int));
        }
    }
    proof {
        assert(r@ =~= rev@.reverse());
    }
    r
}

/// The bytes of `Content-Length: `.
fn cl_prefix_vec() -> (r: Vec<u8>)
    ensures
        r@ == cl_prefix(),
{
    let r: Vec<u8> = vec![
        67u8, 111u8, 110u8, 116u8, 101u8, 110u8, 116u8, 45u8, 76u8, 101u8, 110u8, 103u8, 116u8,
        104u8, COLON, SPACE,
    ];
    proof {
        assert(r@ =~= cl_prefix());
    }
    r
}

/// Frames `body` for the child's standard input.
pub fn encode_frame(body: &[u8]) -> (r: Vec<u8>)
    ensures
        r@ == frame_of(body@),
{
    let mut r = cl_prefix_vec();
    let len = dec_bytes_of(body.len() as u64);
    append_bytes(&mut r, len.as_slice());
    let crlf2: Vec<u8> = vec![CR, LF, CR, LF];
    append_bytes(&mut r, crlf2.as_slice());
    append_bytes(&mut r, body);
    proof {
        assert(r@ =~= frame_of(body@));
    }
    r
}

/// What `decode_frame` found, in executable form.
pub enum DecodeOutcome {
    Incomplete,
    Malformed,
    Frame { body: Vec<u8>, used: usize },
}

/// Position of the first CRLF at or after `from`.
fn find_line_end(b: &[u8], from: usize) -> (r: Option<usize>)
    ensures
        match r {
            Some(j) => spec_line_end(b@, from as int) == Some(j as int),
            None => spec_line_end(b@, from as int) is None,
        },
{
    let mut j: usize = from;
    #[verifier::loop_isolation(false)]
    while j < b.len() && j + 1 < b.len()
        invariant
            from <= j,
            spec_line_end(b@, from as int) == spec_line_end(b@, j as int),
        decreases b.len() - j,
    {
        if b[j] == CR && b[j + 1] == LF {
            return Some(j);
        }
        j += 1;
    }
    None
}

/// Position of the first colon in `line`.
fn find_colon(line: &[u8]) -> (r: Option<usize>)
    ensures
        match r {
            Some(c) => spec_colon(line@, 0) == Some(c as int),
            None => spec_colon(line@, 0) is None,
        },
{
    let mut c: usize = 0;
    #[verifier::loop_isolation(false)]
    while c < line.len()
        invariant
            c <= line.len(),
            spec_colon(line@, 0) == spec_colon(line@, c as int),
        decreases line.len() - c,
    {
        if line[c] == COLON {
            return Some(c);
        }
        c += 1;
    }
    None
}

/// The slice with surrounding spaces removed.
fn trim_slice<'a>(s: &'a [u8]) -> (r: &'a [u8])
    ensures
        r@ == trim(s@),
{
    let mut lo: usize = 0;
    proof {
        assert(s@.skip(0) =~= s@);
    }
    #[verifier::loop_isolation(false)]
    while lo < s.len() && s[lo] == SPACE
        invariant
            lo <= s.len(),
            trim_left(s@) == trim_left(s@.skip(lo as int)),
        decreases s.len() - lo,
    {
        proof {
            assert(s@.skip(lo as int).drop_first() =~= s@.skip(lo as int + 1));
        }
        lo += 1;
    }
    proof {
        assert(trim_left(s@) == s@.skip(lo as int));
        assert(s@.skip(lo as int) =~= s@.subrange(lo as int, s@.len() as int));
    }
    let mut hi: usize = s.len();
    #[verifier::loop_isolation(false)]
    while hi > lo && s[hi - 1] == SPACE
        invariant
            lo <= hi <= s.len(),
            trim_right(trim_left(s@)) == trim_right(s@.subrange(lo as int, hi as int)),
        decreases hi,
    {
        proof {
            assert(s@.subrange(lo as int, hi as int).drop_last() =~= s@.subrange(
                lo as int,
                hi as int - 1,
            ));
        }
        hi -= 1;
    }
    proof {
        assert(trim_right(s@.subrange(lo as int, hi as int)) == s@.subrange(lo as int, hi as int));
    }
    slice_subrange(s, lo, hi)
}

/// Parses a `Content-Length` value.
fn parse_cl_value(s: &[u8]) -> (r: Option<u64>)
    ensures
        match r {
            Some(n) => spec_cl_value(s@) == Some(n as nat),
            None => spec_cl_value(s@) is None,
        },
{
    if s.len() == 0 {
        return None;
    }
    let mut i: usize = 0;
    proof {
        assert(s@.skip(0) =~= s@);
    }
    // Skip leading zeros.
    #[verifier::loop_isolation(false)]
    while i < s.len() && s[i] == DIGIT_ZERO
        invariant
            i <= s.len(),
            strip_zeros(s@) == strip_zeros(s@.skip(i as int)),
            forall|k: int| 0 <= k < i ==> s@[k] == DIGIT_ZERO,
        decreases s.len() - i,
    {
        proof {
            assert(s@.skip(i as int).drop_first() =~= s@.skip(i as int + 1));
        }
        i += 1;
    }
    proof {
        if i < s.len() {
            assert(strip_zeros(s@) == s@.skip(i as int));
        } else {
            assert(s@.skip(i as int) =~= Seq::<u8>::empty());
            assert(strip_zeros(s@) == s@.skip(i as int));
        }
    }
    if s.len() - i > 19 {
        // Too many significant digits, or not a digit string at all.
        proof {
            assert(s@.skip(i as int).len() > 19);
        }
        return None;
    }
    // Check every byte is a digit and fold the value.
    if !all_digits_exec(s) {
        return None;
    }
    let mut v: u64 = 0;
    let mut k: usize = i;
    proof {
        lemma_digits_val_skip_zeros(s@, i as int);
        lemma_digits_val_bound(s@.subrange(i as int, s@.len() as int));
    }
    #[verifier::loop_isolation(false)]
    while k < s.len()
        invariant
            i <= k <= s.len(),
            v as nat == digits_val(s@.subrange(i as int, k as int)),
            digits_val(s@.subrange(i as int, k as int)) <= digits_val(
                s@.subrange(i as int, s@.len() as int),
            ),
            digits_val(s@.subrange(i as int, s@.len() as int)) < 10000000000000000000,
        decreases s.len() - k,
    {
        proof {
            lemma_digits_val_prefix(s@.subrange(i as int, s@.len() as int), k as int - i as int);
            assert(s@.subrange(i as int, s@.len() as int).take(k as int - i as int + 1) =~= s@
                .subrange(i as int, k as int + 1));
            assert(s@.subrange(i as int, s@.len() as int).take(k as int - i as int) =~= s@.subrange(
                i as int,
                k as int,
            ));
            assert(s@.subrange(i as int, k as int + 1).drop_last() =~= s@.subrange(
                i as int,
                k as int,
            ));
        }
        v = v * 10 + (s[k] - DIGIT_ZERO) as u64;
        k += 1;
    }
    proof {
        assert(s@.subrange(i as int, s@.len() as int) =~= s@.skip(i as int));
        lemma_digits_val_skip_zeros(s@, i as int);
    }
    Some(v)
}

/// Whether every byte of `s` is a decimal digit.
fn all_digits_exec(s: &[u8]) -> (r: bool)
    ensures
        r == all_digits(s@),
{
    let mut i: usize = 0;
    #[verifier::loop_isolation(false)]
    while i < s.len()
        invariant
            i <= s.len(),
            forall|k: int| 0 <= k < i ==> is_digit(#[trigger] s@[k]),
        decreases s.len() - i,
    {
        if s[i] < DIGIT_ZERO || s[i] > 57 {
            return false;
        }
        i += 1;
    }
    true
}

/// Leading zeros do not change a digit string's value.
proof fn lemma_digits_val_skip_zeros(s: Seq<u8>, i: int)
    requires
        0 <= i <= s.len(),
        forall|k: int| 0 <= k < i ==> s[k] == DIGIT_ZERO,
    ensures
        digits_val(s) == digits_val(s.skip(i)),
    decreases s.len(),
{
    if i > 0 && s.len() > 0 {
        if i == s.len() {
            lemma_digits_val_all_zeros(s);
            assert(s.skip(i) =~= Seq::<u8>::empty());
        } else {
            lemma_digits_val_skip_zeros(s.drop_last(), i);
            assert(s.drop_last().skip(i) =~= s.skip(i).drop_last());
        }
    } else {
        assert(s.skip(0) =~= s);
    }
}

/// A string of zero digits has value zero.
proof fn lemma_digits_val_all_zeros(s: Seq<u8>)
    requires
        forall|k: int| 0 <= k < s.len() ==> s[k] == DIGIT_ZERO,
    ensures
        digits_val(s) == 0,
    decreases s.len(),
{
    if s.len() > 0 {
        lemma_digits_val_all_zeros(s.drop_last());
    }
}

/// A digit string's value grows with its prefixes.
proof fn lemma_digits_val_prefix(s: Seq<u8>, k: int)
    requires
        0 <= k < s.len(),
        all_digits(s),
    ensures
        digits_val(s.take(k)) <= digits_val(s.take(k + 1)),
        digits_val(s.take(k + 1)) <= digits_val(s),
    decreases s.len() - k,
{
    assert(s.take(k + 1).drop_last() =~= s.take(k));
    if k + 1 < s.len() {
        lemma_digits_val_prefix(s, k + 1);
    } else {
        assert(s.take(k + 1) =~= s);
    }
}

/// Nineteen significant digits stay below ten to the nineteenth.
proof fn lemma_digits_val_bound(s: Seq<u8>)
    requires
        all_digits(s),
        strip_zeros(s).len() <= 19,
    ensures
        digits_val(s) < 10000000000000000000,
    decreases s.len(),
{
    lemma_strip_zeros_val(s);
    lemma_digits_val_pow(strip_zeros(s));
    lemma_pow10_19(strip_zeros(s).len() as int);
}

/// Stripping leading zeros keeps the value.
proof fn lemma_strip_zeros_val(s: Seq<u8>)
    ensures
        digits_val(strip_zeros(s)) == digits_val(s),
        strip_zeros(s).len() <= s.len(),
        all_digits(s) ==> all_digits(strip_zeros(s)),
    decreases s.len(),
{
    if s.len() > 0 && s[0] == DIGIT_ZERO {
        lemma_strip_zeros_val(s.drop_first());
        lemma_digits_val_skip_zeros(s, 1);
        assert(s.skip(1) =~= s.drop_first());
    }
}

/// Ten to the `k`.
pub open spec fn pow10(k: nat) -> nat
    decreases k,
{
    if k == 0 {
        1
    } else {
        10 * pow10((k - 1) as nat)
    }
}

/// A digit string's value is below ten to its length.
proof fn lemma_digits_val_pow(s: Seq<u8>)
    requires
        all_digits(s),
    ensures
        digits_val(s) < pow10(s.len()),
    decreases s.len(),
{
    if s.len() > 0 {
        assert(all_digits(s.drop_last())) by {
            assert(forall|i: int| 0 <= i < s.len() - 1 ==> s.drop_last()[i] == s[i]);
        }
        lemma_digits_val_pow(s.drop_last());
    }
}

/// Ten to a power grows with the power.
proof fn lemma_pow10_le(j: nat, k: nat)
    requires
        j <= k,
    ensures
        pow10(j) <= pow10(k),
    decreases k,
{
    if j < k {
        lemma_pow10_le(j, (k - 1) as nat);
        assert(pow10(k) == 10 * pow10((k - 1) as nat));
    }
}

/// Ten to a power at most nineteen is at most ten to the nineteenth.
proof fn lemma_pow10_19(k: int)
    requires
        0 <= k <= 19,
    ensures
        pow10(k as nat) <= 10000000000000000000,
{
    lemma_pow10_le(k as nat, 19);
    assert(pow10(19) == 10000000000000000000) by {
        reveal_with_fuel(pow10, 21);
    }
}

/// Reads the frame at the front of `buf`.
pub fn decode_frame(buf: &[u8]) -> (r: DecodeOutcome)
    ensures
        match r {
            DecodeOutcome::Incomplete => spec_decode(buf@) is Incomplete,
            DecodeOutcome::Malformed => spec_decode(buf@) is Malformed,
            DecodeOutcome::Frame { body, used } => spec_decode(buf@) == SpecDecode::Frame(
                body@,
                used as int,
            ),
        },
{
    let mut from: usize = 0;
    let mut cl: Option<u64> = None;
    #[verifier::loop_isolation(false)]
    loop
        invariant
            from <= buf.len(),
            spec_scan_headers(buf@, 0, None) == spec_scan_headers(
                buf@,
                from as int,
                match cl {
                    Some(n) => Some(n as nat),
                    None => None,
                },
            ),
        decreases buf.len() - from,
    {
        let j = match find_line_end(buf, from) {
            Some(j) => j,
            None => {
                return DecodeOutcome::Incomplete;
            },
        };
        proof {
            lemma_line_end_bounds(buf@, from as int);
        }
        let line = slice_subrange(buf, from, j);
        if line.len() == 0 {
            match cl {
                Some(n) => {
                    // Headers complete; check for the whole body.
                    let body_start: usize = j + 2;
                    if n <= (buf.len() - body_start) as u64 {
                        let used: usize = body_start + (n as usize);
                        let body = slice_subrange(buf, body_start, used);
                        let mut out: Vec<u8> = Vec::new();
                        append_bytes(&mut out, body);
                        proof {
                            assert(out@ =~= buf@.subrange(
                                body_start as int,
                                body_start as int + n as int,
                            ));
                        }
                        return DecodeOutcome::Frame { body: out, used };
                    } else {
                        return DecodeOutcome::Incomplete;
                    }
                },
                None => {
                    return DecodeOutcome::Malformed;
                },
            }
        }
        let c = match find_colon(line) {
            Some(c) => c,
            None => {
                return DecodeOutcome::Malformed;
            },
        };
        proof {
            lemma_colon_bounds(line@, 0);
        }
        let name = slice_subrange(line, 0, c);
        let rest = slice_subrange(line, c + 1, line.len());
        let value = trim_slice(rest);
        proof {
            assert(line@.skip(c as int + 1) =~= rest@);
            assert(name@ =~= line@.take(c as int));
        }
        if is_cl_name(name) {
            match parse_cl_value(value) {
                Some(n) => {
                    cl = Some(n);
                    from = j + 2;
                },
                None => {
                    return DecodeOutcome::Malformed;
                },
            }
        } else {
            from = j + 2;
        }
    }
}

/// Whether `name` is exactly `Content-Length`.
fn is_cl_name(name: &[u8]) -> (r: bool)
    ensures
        r == (name@ == cl_name()),
{
    let cl: Vec<u8> = vec![
        67u8, 111u8, 110u8, 116u8, 101u8, 110u8, 116u8, 45u8, 76u8, 101u8, 110u8, 103u8, 116u8,
        104u8,
    ];
    proof {
        assert(cl@ =~= cl_name());
    }
    if name.len() != cl.len() {
        assert(name@.len() != cl_name().len());
        return false;
    }
    let mut i: usize = 0;
    #[verifier::loop_isolation(false)]
    while i < name.len()
        invariant
            i <= name.len(),
            forall|k: int| 0 <= k < i ==> name@[k] == cl_name()[k],
        decreases name.len() - i,
    {
        if name[i] != cl[i] {
            return false;
        }
        i += 1;
    }
    proof {
        assert(name@ =~= cl_name());
    }
    true
}

/// A found CRLF lies within the buffer, at or after the scan start.
proof fn lemma_line_end_bounds(b: Seq<u8>, from: int)
    requires
        spec_line_end(b, from) is Some,
    ensures
        from <= spec_line_end(b, from)->Some_0,
        spec_line_end(b, from)->Some_0 + 2 <= b.len(),
        b[spec_line_end(b, from)->Some_0] == CR,
        b[spec_line_end(b, from)->Some_0 + 1] == LF,
    decreases b.len() - from,
{
    if !(from < 0 || from + 2 > b.len()) && !(b[from] == CR && b[from + 1] == LF) {
        lemma_line_end_bounds(b, from + 1);
    }
}

/// A CRLF preceded by no CR is the first one found.
proof fn lemma_line_end_at(b: Seq<u8>, from: int, j: int)
    requires
        0 <= from <= j,
        j + 2 <= b.len(),
        forall|k: int| from <= k < j ==> b[k] != CR,
        b[j] == CR,
        b[j + 1] == LF,
    ensures
        spec_line_end(b, from) == Some(j),
    decreases j - from,
{
    if from < j {
        lemma_line_end_at(b, from + 1, j);
    }
}

/// A colon preceded by no colon is the first one found.
proof fn lemma_colon_at(line: Seq<u8>, c: int)
    requires
        0 <= c < line.len(),
        forall|k: int| 0 <= k < c ==> line[k] != COLON,
        line[c] == COLON,
    ensures
        spec_colon(line, 0) == Some(c),
{
    lemma_colon_from(line, 0, c);
}

proof fn lemma_colon_from(line: Seq<u8>, from: int, c: int)
    requires
        0 <= from <= c < line.len(),
        forall|k: int| from <= k < c ==> line[k] != COLON,
        line[c] == COLON,
    ensures
        spec_colon(line, from) == Some(c),
    decreases c - from,
{
    if from < c {
        lemma_colon_from(line, from + 1, c);
    }
}

/// A numeral consists of digits.
proof fn lemma_dec_bytes_digits(n: nat)
    ensures
        all_digits(dec_bytes(n)),
        dec_bytes(n).len() >= 1,
    decreases n,
{
    if n >= 10 {
        lemma_dec_bytes_digits(n / 10);
        assert(forall|i: int|
            0 <= i < dec_bytes(n).len() - 1 ==> dec_bytes(n)[i] == dec_bytes(n / 10)[i]);
    }
}

/// Reading a numeral back gives the number.
proof fn lemma_dec_bytes_val(n: nat)
    ensures
        digits_val(dec_bytes(n)) == n,
    decreases n,
{
    if n < 10 {
        let s = dec_bytes(n);
        assert(s == seq![(DIGIT_ZERO + n) as u8]);
        assert(s.last() == (DIGIT_ZERO + n) as u8);
        assert(s.drop_last() =~= Seq::<u8>::empty());
        assert(digits_val(Seq::<u8>::empty()) == 0);
        assert(digits_val(s) == (0 * 10 + ((DIGIT_ZERO + n) as u8 - DIGIT_ZERO)) as nat);
    } else {
        lemma_dec_bytes_val(n / 10);
        assert(dec_bytes(n).drop_last() =~= dec_bytes(n / 10));
        assert(dec_bytes(n).last() == (DIGIT_ZERO + n % 10) as u8);
    }
}

/// A number below ten to the `k` has at most `k` digits.
proof fn lemma_dec_bytes_len(n: nat, k: nat)
    requires
        n < pow10(k),
        k >= 1,
    ensures
        dec_bytes(n).len() <= k,
    decreases n,
{
    if n >= 10 {
        assert(pow10(k) == 10 * pow10((k - 1) as nat));
        assert(n / 10 < pow10((k - 1) as nat)) by (nonlinear_arith)
            requires
                n < 10 * pow10((k - 1) as nat),
        ;
        assert(pow10((k - 1) as nat) > 1);
        assert((k - 1) as nat >= 1) by {
            if k == 1 {
                assert(pow10(0nat) == 1);
            }
        }
        lemma_dec_bytes_len(n / 10, (k - 1) as nat);
    }
}

/// Decoding an encoded frame gives the payload back, whole and exact.
///
/// The payload bound matches the codec's nineteen-digit `Content-Length`
/// limit; no buffer that fits in memory can reach it.
pub proof fn lemma_frame_round_trip(body: Seq<u8>)
    requires
        body.len() < 10000000000000000000,
    ensures
        spec_decode(frame_of(body)) == SpecDecode::Frame(body, frame_of(body).len() as int),
{
    let n = body.len();
    let d = dec_bytes(n);
    let f = frame_of(body);
    let hl = 16 + d.len() as int;
    lemma_dec_bytes_digits(n);
    assert(f.len() == 20 + d.len() + n);
    assert forall|k: int| 0 <= k < hl implies f[k] != CR by {
        if k < 16 {
            assert(f[k] == cl_prefix()[k]);
        } else {
            assert(f[k] == d[k - 16]);
            assert(is_digit(d[k - 16]));
        }
    }
    assert(f[hl] == CR && f[hl + 1] == LF);
    lemma_line_end_at(f, 0, hl);
    let line = f.subrange(0, hl);
    assert(line =~= cl_prefix() + d);
    assert forall|k: int| 0 <= k < 14 implies line[k] != COLON by {
        assert(line[k] == cl_prefix()[k]);
    }
    assert(line[14] == COLON);
    lemma_colon_at(line, 14);
    assert(line.take(14) =~= cl_name());
    let rest = line.skip(15);
    assert(rest =~= seq![SPACE] + d);
    assert(rest.drop_first() =~= d);
    assert(is_digit(d[0]));
    assert(rest[0] == SPACE && rest.len() > 0);
    assert(trim_left(rest) == trim_left(rest.drop_first()));
    assert(trim_left(d) == d);
    assert(is_digit(d.last()));
    assert(trim_right(d) == d);
    assert(trim(rest) == d);
    lemma_strip_zeros_val(d);
    assert(pow10(19) == 10000000000000000000) by {
        reveal_with_fuel(pow10, 21);
    }
    lemma_dec_bytes_len(n, 19);
    lemma_dec_bytes_val(n);
    assert(spec_cl_value(d) == Some(n));
    assert(spec_line_end(f, 0) == Some(hl));
    assert(spec_scan_headers(f, 0, None) == spec_scan_headers(f, hl + 2, Some(n)));
    assert(f[hl + 2] == CR && f[hl + 3] == LF);
    assert(spec_line_end(f, hl + 2) == Some(hl + 2));
    assert(f.subrange(hl + 2, hl + 2).len() == 0);
    assert(spec_scan_headers(f, hl + 2, Some(n)) == HeaderScan::Complete {
        length: n,
        body_start: hl + 4,
    });
    assert(hl + 4 + n == f.len());
    assert(f.subrange(hl + 4, hl + 4 + n as int) =~= body);
}

/// A found colon lies within the line.
proof fn lemma_colon_bounds(line: Seq<u8>, from: int)
    requires
        spec_colon(line, from) is Some,
    ensures
        from <= spec_colon(line, from)->Some_0,
        spec_colon(line, from)->Some_0 < line.len(),
        line[spec_colon(line, from)->Some_0] == COLON,
    decreases line.len() - from,
{
    if !(from < 0 || from >= line.len()) && line[from] != COLON {
        lemma_colon_bounds(line, from + 1);
    }
}

} // verus!
