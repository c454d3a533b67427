//! Configuration values and their on-disk document.
//!
//! The document is a small TOML table of three keys.
//! [`ENguyenConfig::to_toml_bytes`] writes one `key = value` line per key in
//! a fixed order; [`ENguyenConfig::parse`] reads the table back and also
//! accepts the usual liberties a hand-edited file takes: blank lines,
//! `#` comments, blank space around keys and values, CRLF line endings, any
//! key order and a leading plus sign on numbers.  Each of the three keys
//! must appear exactly once; a line with any other key is refused, as is a
//! malformed value.  The parser's behaviour is pinned to the spec-level
//! [`spec_parse_config`], and [`lemma_canonical_doc_parses`] proves that
//! every document this module writes parses back to the settings it was
//! written from.  Reading and writing the file itself is the caller's
//! business; this module works on bytes.

use vstd::prelude::*;

use vstd::arithmetic::div_mod::{lemma_div_decreases, lemma_fundamental_div_mod};

use crate::errors::ENguyenError;

verus! {

/// The persisted settings: which GPU to use, which audio input, and whether
/// to start fullscreen.
#[derive(PartialEq, Eq, Structural, Copy, Clone, Debug)]
pub struct ENguyenConfig {
    pub physical_device_index: i32,
    pub audio_input_index: i32,
    pub start_in_fullscreen: bool,
}

impl Default for ENguyenConfig {
    /// First GPU, no configured audio input, windowed start.
    fn default() -> (r: Self)
        ensures
            r.physical_device_index == 0,
            r.audio_input_index == -1,
            r.start_in_fullscreen == false,
    {
        ENguyenConfig { physical_device_index: 0, audio_input_index: -1, start_in_fullscreen: false }
    }
}

/// The bytes of `"physical_device_index"`.
pub open spec fn key_physical_device_index() -> Seq<u8> {
    seq![
        112u8, 104, 121, 115, 105, 99, 97, 108, 95, 100, 101, 118, 105, 99, 101, 95, 105, 110,
        100, 101, 120,
    ]
}

/// The bytes of `"audio_input_index"`.
pub open spec fn key_audio_input_index() -> Seq<u8> {
    seq![97u8, 117, 100, 105, 111, 95, 105, 110, 112, 117, 116, 95, 105, 110, 100, 101, 120]
}

/// The bytes of `"start_in_fullscreen"`.
pub open spec fn key_start_in_fullscreen() -> Seq<u8> {
    seq![115u8, 116, 97, 114, 116, 95, 105, 110, 95, 102, 117, 108, 108, 115, 99, 114, 101, 101, 110]
}

/// The bytes of `" = "`.
pub open spec fn eq_separator() -> Seq<u8> {
    seq![32u8, 61, 32]
}

/// The ASCII digit for a value below ten.
pub open spec fn digit_byte(d: int) -> u8 {
    (48 + d) as u8
}

/// The decimal digits of `n`, most significant first, no leading zeros.
pub open spec fn dec_bytes(n: nat) -> Seq<u8>
    decreases n,
{
    if n < 10 {
        seq![digit_byte(n as int)]
    } else {
        dec_bytes(n / 10) + seq![digit_byte((n % 10) as int)]
    }
}

/// The decimal form of a signed value: a minus sign for negatives.
pub open spec fn int_bytes(v: int) -> Seq<u8> {
    if v < 0 {
        seq![45u8] + dec_bytes((-v) as nat)
    } else {
        dec_bytes(v as nat)
    }
}

/// The bytes of `"true"` or `"false"`.
pub open spec fn bool_bytes(b: bool) -> Seq<u8> {
    if b {
        seq![116u8, 114, 117, 101]
    } else {
        seq![102u8, 97, 108, 115, 101]
    }
}

/// The full configuration document: three `key = value` lines in fixed
/// order, each closed by a newline.
pub open spec fn spec_config_doc(c: ENguyenConfig) -> Seq<u8> {
    key_physical_device_index() + eq_separator() + int_bytes(c.physical_device_index as int)
        + seq![10u8] + key_audio_input_index() + eq_separator() + int_bytes(
        c.audio_input_index as int,
    ) + seq![10u8] + key_start_in_fullscreen() + eq_separator() + bool_bytes(
        c.start_in_fullscreen,
    ) + seq![10u8]
}

/// Appends the decimal digits of `n`.
fn push_dec(out: &mut Vec<u8>, n: u32)
    ensures
        final(out)@ == old(out)@ + dec_bytes(n as nat),
    decreases n,
{
    if n < 10 {
        out.push(48 + n as u8);
        proof {
            assert(out@ =~= old(out)@ + dec_bytes(n as nat));
        }
    } else {
        proof {
            lemma_div_decreases(n as int, 10);
        }
        push_dec(out, n / 10);
        out.push(48 + (n % 10) as u8);
        proof {
            assert(out@ =~= old(out)@ + dec_bytes(n as nat));
        }
    }
}

/// Appends the decimal form of a signed value.
fn push_int(out: &mut Vec<u8>, v: i32)
    ensures
        final(out)@ == old(out)@ + int_bytes(v as int),
{
    if v < 0 {
        out.push(45);
        let magnitude: u32 = (-(v as i64)) as u32;
        push_dec(out, magnitude);
        proof {
            assert(out@ =~= old(out)@ + int_bytes(v as int));
        }
    } else {
        push_dec(out, v as u32);
    }
}

/// An ASCII decimal digit.
pub open spec fn is_digit(b: u8) -> bool {
    48 <= b <= 57
}

/// The value of a digit string, most significant digit first.
pub open spec fn digits_val(s: Seq<u8>) -> int
    decreases s.len(),
{
    if s.len() == 0 {
        0
    } else {
        digits_val(s.drop_last()) * 10 + (s.last() - 48)
    }
}

/// Powers of ten.
pub open spec fn pow10(k: nat) -> nat
    decreases k,
{
    if k == 0 {
        1
    } else {
        10 * pow10((k - 1) as nat)
    }
}

/// The decimal form of `n` is all digits, is never empty, and denotes `n`.
proof fn lemma_dec_bytes_digits(n: nat)
    ensures
        dec_bytes(n).len() >= 1,
        forall|k: int| 0 <= k < dec_bytes(n).len() ==> is_digit(#[trigger] dec_bytes(n)[k]),
        digits_val(dec_bytes(n)) == n,
    decreases n,
{
    if n < 10 {
        let s = dec_bytes(n);
        assert(s.drop_last() =~= Seq::<u8>::empty());
        assert(digits_val(s.drop_last()) == 0);
        assert(s.last() == digit_byte(n as int));
    } else {
        lemma_dec_bytes_digits(n / 10);
        lemma_fundamental_div_mod(n as int, 10);
        assert(dec_bytes(n).drop_last() =~= dec_bytes(n / 10));
        assert(dec_bytes(n).last() == digit_byte((n % 10) as int));
    }
}

/// Fewer than `pow10(k)` means at most `k` digits.
proof fn lemma_dec_bytes_len(n: nat, k: nat)
    requires
        1 <= k,
        n < pow10(k),
    ensures
        dec_bytes(n).len() <= k,
    decreases k,
{
    if n < 10 {
    } else {
        assert(k >= 2) by {
            if k == 1 {
                assert(pow10(0nat) == 1);
                assert(pow10(1nat) == 10);
            }
        }
        assert(pow10(k) == 10 * pow10((k - 1) as nat));
        vstd::arithmetic::div_mod::lemma_div_multiples_vanish_fancy(
            pow10((k - 1) as nat) as int - 1,
            9,
            10,
        );
        vstd::arithmetic::div_mod::lemma_div_is_ordered(
            n as int,
            10 * pow10((k - 1) as nat) - 1,
            10,
        );
        lemma_dec_bytes_len(n / 10, (k - 1) as nat);
    }
}

/// The first ten powers of ten, spelt out for the scanner's bounds.
proof fn lemma_pow10_values()
    ensures
        pow10(0) == 1,
        pow10(1) == 10,
        pow10(9) == 1_000_000_000,
        pow10(10) == 10_000_000_000,
        forall|a: nat, b: nat| a <= b ==> #[trigger] pow10(a) <= #[trigger] pow10(b),
{
    assert forall|a: nat, b: nat| a <= b implies #[trigger] pow10(a) <= #[trigger] pow10(b) by {
        lemma_pow10_nondec(a, b);
    }
    assert(pow10(0) == 1);
    assert(pow10(1) == 10);
    assert(pow10(2) == 100);
    assert(pow10(3) == 1000);
    assert(pow10(4) == 10000);
    assert(pow10(5) == 100000);
    assert(pow10(6) == 1000000);
    assert(pow10(7) == 10000000);
    assert(pow10(8) == 100000000);
    assert(pow10(9) == 1_000_000_000);
    assert(pow10(10) == 10_000_000_000);
}

proof fn lemma_pow10_nondec(a: nat, b: nat)
    requires
        a <= b,
    ensures
        pow10(a) <= pow10(b),
    decreases b,
{
    if a < b {
        lemma_pow10_nondec(a, (b - 1) as nat);
        assert(pow10(((b - 1) as nat)) >= 1) by {
            lemma_pow10_pos((b - 1) as nat);
        }
    }
}

proof fn lemma_pow10_pos(k: nat)
    ensures
        pow10(k) >= 1,
    decreases k,
{
    if k > 0 {
        lemma_pow10_pos((k - 1) as nat);
    }
}

/// Blank space inside a line: space, tab, or the carriage return of a
/// CRLF line ending.
pub open spec fn is_ws(b: u8) -> bool {
    b == 32 || b == 9 || b == 13
}

/// End of the line starting at `pos`: the next newline, or `end`.
pub open spec fn line_break(t: Seq<u8>, pos: int, end: int) -> int
    decreases end - pos,
    when 0 <= pos <= end <= t.len()
{
    if pos >= end || t[pos] == 10 {
        pos
    } else {
        line_break(t, pos + 1, end)
    }
}

/// Start of the line's comment: the first `#`, or `end`.
pub open spec fn comment_start(t: Seq<u8>, pos: int, end: int) -> int
    decreases end - pos,
    when 0 <= pos <= end <= t.len()
{
    if pos >= end || t[pos] == 35 {
        pos
    } else {
        comment_start(t, pos + 1, end)
    }
}

/// First position at or after `pos` that is not blank space, or `end`.
pub open spec fn skip_ws(t: Seq<u8>, pos: int, end: int) -> int
    decreases end - pos,
    when 0 <= pos <= end <= t.len()
{
    if pos >= end || !is_ws(t[pos]) {
        pos
    } else {
        skip_ws(t, pos + 1, end)
    }
}

/// End of the key starting at `pos`: the first blank or equals sign, or
/// `end`.
pub open spec fn key_break(t: Seq<u8>, pos: int, end: int) -> int
    decreases end - pos,
    when 0 <= pos <= end <= t.len()
{
    if pos >= end || is_ws(t[pos]) || t[pos] == 61 {
        pos
    } else {
        key_break(t, pos + 1, end)
    }
}

/// End of the content before the line's trailing blank space: the greatest
/// boundary in `[pos, end]` followed only by blank bytes.
pub open spec fn trim_back(t: Seq<u8>, pos: int, end: int) -> int
    decreases end - pos,
    when 0 <= pos <= end <= t.len()
{
    if end <= pos || !is_ws(t[end - 1]) {
        end
    } else {
        trim_back(t, pos, end - 1)
    }
}

/// A forward scan over `m` bytes it does not stop at ends exactly past
/// them; one lemma per scanner.
proof fn lemma_line_break_hits(t: Seq<u8>, pos: int, end: int, m: int)
    requires
        0 <= pos,
        0 <= m,
        pos + m <= end <= t.len(),
        forall|k: int| pos <= k < pos + m ==> #[trigger] t[k] != 10,
        pos + m == end || t[pos + m] == 10,
    ensures
        line_break(t, pos, end) == pos + m,
    decreases m,
{
    if m > 0 {
        lemma_line_break_hits(t, pos + 1, end, m - 1);
    }
}

proof fn lemma_comment_start_hits(t: Seq<u8>, pos: int, end: int, m: int)
    requires
        0 <= pos,
        0 <= m,
        pos + m <= end <= t.len(),
        forall|k: int| pos <= k < pos + m ==> #[trigger] t[k] != 35,
        pos + m == end || t[pos + m] == 35,
    ensures
        comment_start(t, pos, end) == pos + m,
    decreases m,
{
    if m > 0 {
        lemma_comment_start_hits(t, pos + 1, end, m - 1);
    }
}

proof fn lemma_skip_ws_hits(t: Seq<u8>, pos: int, end: int, m: int)
    requires
        0 <= pos,
        0 <= m,
        pos + m <= end <= t.len(),
        forall|k: int| pos <= k < pos + m ==> is_ws(#[trigger] t[k]),
        pos + m == end || !is_ws(t[pos + m]),
    ensures
        skip_ws(t, pos, end) == pos + m,
    decreases m,
{
    if m > 0 {
        lemma_skip_ws_hits(t, pos + 1, end, m - 1);
    }
}

proof fn lemma_key_break_hits(t: Seq<u8>, pos: int, end: int, m: int)
    requires
        0 <= pos,
        0 <= m,
        pos + m <= end <= t.len(),
        forall|k: int| pos <= k < pos + m ==> !is_ws(#[trigger] t[k]) && t[k] != 61,
        pos + m == end || is_ws(t[pos + m]) || t[pos + m] == 61,
    ensures
        key_break(t, pos, end) == pos + m,
    decreases m,
{
    if m > 0 {
        lemma_key_break_hits(t, pos + 1, end, m - 1);
    }
}

/// The scan of the line starting at `pos`, as executable code.
fn find_line_break(text: &[u8], pos: usize, end: usize) -> (r: usize)
    requires
        pos <= end <= text@.len(),
    ensures
        r == line_break(text@, pos as int, end as int),
        pos <= r <= end,
    decreases end - pos,
{
    let mut i = pos;
    while i < end && text[i] != 10
        invariant
            pos <= i <= end,
            end <= text@.len(),
            line_break(text@, pos as int, end as int) == line_break(text@, i as int, end as int),
        decreases end - i,
    {
        proof {
            assert(line_break(text@, i as int, end as int) == line_break(
                text@,
                i as int + 1,
                end as int,
            ));
        }
        i += 1;
    }
    i
}

/// The comment scan, as executable code.
fn find_comment_start(text: &[u8], pos: usize, end: usize) -> (r: usize)
    requires
        pos <= end <= text@.len(),
    ensures
        r == comment_start(text@, pos as int, end as int),
        pos <= r <= end,
{
    let mut i = pos;
    while i < end && text[i] != 35
        invariant
            pos <= i <= end,
            end <= text@.len(),
            comment_start(text@, pos as int, end as int) == comment_start(
                text@,
                i as int,
                end as int,
            ),
        decreases end - i,
    {
        proof {
            assert(comment_start(text@, i as int, end as int) == comment_start(
                text@,
                i as int + 1,
                end as int,
            ));
        }
        i += 1;
    }
    i
}

/// The blank-space skip, as executable code.
fn find_skip_ws(text: &[u8], pos: usize, end: usize) -> (r: usize)
    requires
        pos <= end <= text@.len(),
    ensures
        r == skip_ws(text@, pos as int, end as int),
        pos <= r <= end,
{
    let mut i = pos;
    while i < end && (text[i] == 32 || text[i] == 9 || text[i] == 13)
        invariant
            pos <= i <= end,
            end <= text@.len(),
            skip_ws(text@, pos as int, end as int) == skip_ws(text@, i as int, end as int),
        decreases end - i,
    {
        proof {
            assert(skip_ws(text@, i as int, end as int) == skip_ws(
                text@,
                i as int + 1,
                end as int,
            ));
        }
        i += 1;
    }
    i
}

/// The key scan, as executable code.
fn find_key_break(text: &[u8], pos: usize, end: usize) -> (r: usize)
    requires
        pos <= end <= text@.len(),
    ensures
        r == key_break(text@, pos as int, end as int),
        pos <= r <= end,
{
    let mut i = pos;
    while i < end && !(text[i] == 32 || text[i] == 9 || text[i] == 13 || text[i] == 61)
        invariant
            pos <= i <= end,
            end <= text@.len(),
            key_break(text@, pos as int, end as int) == key_break(text@, i as int, end as int),
        decreases end - i,
    {
        proof {
            assert(key_break(text@, i as int, end as int) == key_break(
                text@,
                i as int + 1,
                end as int,
            ));
        }
        i += 1;
    }
    i
}

/// The trailing-blank trim, as executable code.
fn find_trim_back(text: &[u8], pos: usize, end: usize) -> (r: usize)
    requires
        pos <= end <= text@.len(),
    ensures
        r == trim_back(text@, pos as int, end as int),
        pos <= r <= end,
{
    let mut e = end;
    while e > pos && (text[e - 1] == 32 || text[e - 1] == 9 || text[e - 1] == 13)
        invariant
            pos <= e <= end,
            end <= text@.len(),
            trim_back(text@, pos as int, end as int) == trim_back(text@, pos as int, e as int),
        decreases e,
    {
        proof {
            assert(trim_back(text@, pos as int, e as int) == trim_back(
                text@,
                pos as int,
                e as int - 1,
            ));
        }
        e -= 1;
    }
    e
}

/// The signed decimal value written in `[v, e)`, when one is: an optional
/// sign, one to ten digits, and a result within the 32-bit range.
pub open spec fn int_value(t: Seq<u8>, v: int, e: int) -> Option<int> {
    let vs = if t[v] == 45 || t[v] == 43 {
        v + 1
    } else {
        v
    };
    if vs >= e || e - vs > 10 {
        None
    } else if !(forall|k: int| vs <= k < e ==> is_digit(#[trigger] t[k])) {
        None
    } else {
        let m = digits_val(t.subrange(vs, e));
        let sv = if t[v] == 45 {
            -m
        } else {
            m
        };
        if -2147483648 <= sv <= 2147483647 {
            Some(sv)
        } else {
            None
        }
    }
}

/// The boolean written in `[v, e)`, when one is.
pub open spec fn bool_value(t: Seq<u8>, v: int, e: int) -> Option<bool> {
    if t.subrange(v, e) == bool_bytes(true) {
        Some(true)
    } else if t.subrange(v, e) == bool_bytes(false) {
        Some(false)
    } else {
        None
    }
}

/// What one line of the document contributes.
pub enum LineEntry {
    /// Nothing: only blank space and perhaps a comment.
    Blank,
    /// A `physical_device_index` assignment.
    DeviceIndex(int),
    /// An `audio_input_index` assignment.
    AudioIndex(int),
    /// A `start_in_fullscreen` assignment.
    Fullscreen(bool),
    /// Anything else: an unknown key or a malformed assignment.
    Bad,
}

/// Reads one line `[start, end)` (newline-free): strips the comment, trims
/// blank space, and classifies the `key = value` assignment left over.
pub open spec fn classify_line(t: Seq<u8>, start: int, end: int) -> LineEntry {
    let ce = comment_start(t, start, end);
    let s = skip_ws(t, start, ce);
    let e = trim_back(t, s, ce);
    if s >= e {
        LineEntry::Blank
    } else {
        let k = key_break(t, s, e);
        let eq = skip_ws(t, k, e);
        if eq >= e || t[eq] != 61 {
            LineEntry::Bad
        } else {
            let v = skip_ws(t, eq + 1, e);
            if v >= e {
                LineEntry::Bad
            } else if t.subrange(s, k) == key_physical_device_index() {
                match int_value(t, v, e) {
                    Some(n) => LineEntry::DeviceIndex(n),
                    None => LineEntry::Bad,
                }
            } else if t.subrange(s, k) == key_audio_input_index() {
                match int_value(t, v, e) {
                    Some(n) => LineEntry::AudioIndex(n),
                    None => LineEntry::Bad,
                }
            } else if t.subrange(s, k) == key_start_in_fullscreen() {
                match bool_value(t, v, e) {
                    Some(b) => LineEntry::Fullscreen(b),
                    None => LineEntry::Bad,
                }
            } else {
                LineEntry::Bad
            }
        }
    }
}

/// Reads the document line by line from `pos`, carrying the assignments
/// seen so far: each key at most once, every line meaningful or blank, and
/// all three keys present by the end.
pub open spec fn parse_doc(
    t: Seq<u8>,
    pos: int,
    dev: Option<int>,
    ain: Option<int>,
    fs: Option<bool>,
) -> Option<ENguyenConfig>
    decreases t.len() - pos,
    when 0 <= pos <= t.len()
{
    if pos >= t.len() {
        if dev is Some && ain is Some && fs is Some {
            Some(
                ENguyenConfig {
                    physical_device_index: #[verifier::truncate] (dev->Some_0 as i32),
                    audio_input_index: #[verifier::truncate] (ain->Some_0 as i32),
                    start_in_fullscreen: fs->Some_0,
                },
            )
        } else {
            None
        }
    } else {
        // the line scan never lands before `pos`; the clamp makes that
        // plain to the termination check
        let eb = line_break(t, pos, t.len() as int);
        let e = if eb < pos {
            pos
        } else {
            eb
        };
        let next = if e < t.len() {
            e + 1
        } else {
            t.len() as int
        };
        match classify_line(t, pos, e) {
            LineEntry::Blank => parse_doc(t, next, dev, ain, fs),
            LineEntry::DeviceIndex(n) => if dev is Some {
                None
            } else {
                parse_doc(t, next, Some(n), ain, fs)
            },
            LineEntry::AudioIndex(n) => if ain is Some {
                None
            } else {
                parse_doc(t, next, dev, Some(n), fs)
            },
            LineEntry::Fullscreen(b) => if fs is Some {
                None
            } else {
                parse_doc(t, next, dev, ain, Some(b))
            },
            LineEntry::Bad => None,
        }
    }
}

/// The settings a document denotes, if it is well formed.
pub open spec fn spec_parse_config(t: Seq<u8>) -> Option<ENguyenConfig> {
    parse_doc(t, 0, None, None, None)
}

/// Whether `pat` occurs in `text` at `pos`.
fn expect_bytes(text: &[u8], pos: usize, pat: &[u8]) -> (r: bool)
    ensures
        r == (pos + pat@.len() <= text@.len() && text@.subrange(
            pos as int,
            pos as int + pat@.len() as int,
        ) == pat@),
{
    let n = text.len();
    let m = pat.len();
    if n < m || pos > n - m {
        proof {
            assert(!(pos + pat@.len() <= text@.len()));
        }
        return false;
    }
    let mut k: usize = 0;
    while k < m
        invariant
            k <= m,
            m == pat@.len(),
            n == text@.len(),
            pos + m <= n,
            forall|j: int| 0 <= j < k ==> text@[pos + j] == #[trigger] pat@[j],
        decreases m - k,
    {
        if text[pos + k] != pat[k] {
            proof {
                assert(text@.subrange(pos as int, pos as int + pat@.len() as int)[k as int]
                    == text@[pos + k]);
            }
            return false;
        }
        k += 1;
    }
    proof {
        assert(text@.subrange(pos as int, pos as int + pat@.len() as int) =~= pat@);
    }
    true
}

/// Splitting a concatenation: the two halves are the two subranges.
proof fn lemma_split(t: Seq<u8>, a: Seq<u8>, b: Seq<u8>)
    requires
        t == a + b,
    ensures
        t.len() == a.len() + b.len(),
        t.subrange(0, a.len() as int) == a,
        t.subrange(a.len() as int, t.len() as int) == b,
{
    assert(t.subrange(0, a.len() as int) =~= a);
    assert(t.subrange(a.len() as int, t.len() as int) =~= b);
}

/// A subrange inside the front half of a concatenation reads through it.
proof fn lemma_sub_through(t: Seq<u8>, s: Seq<u8>, extra: Seq<u8>, a: int, b: int)
    requires
        t == s + extra,
        0 <= a <= b <= s.len(),
    ensures
        t.subrange(a, b) == s.subrange(a, b),
        forall|i: int| 0 <= i < s.len() ==> t[i] == s[i],
{
    assert(t.subrange(a, b) =~= s.subrange(a, b));
}

/// Where each piece of a configuration document lies: the three key lines
/// at their fixed offsets, each value region and each closing newline.
proof fn lemma_doc_layout(t: Seq<u8>, c: ENguyenConfig)
    requires
        t == spec_config_doc(c),
    ensures
        ({
            let d1 = int_bytes(c.physical_device_index as int);
            let d2 = int_bytes(c.audio_input_index as int);
            let d3 = bool_bytes(c.start_in_fullscreen);
            let n1 = d1.len() as int;
            let n2 = d2.len() as int;
            let n3 = d3.len() as int;
            &&& t.len() == 68 + n1 + n2 + n3 + 1
            &&& t.subrange(0, 24) == key_physical_device_index() + eq_separator()
            &&& t.subrange(24, 24 + n1) == d1
            &&& t[24 + n1] == 10
            &&& t.subrange(25 + n1, 45 + n1) == key_audio_input_index() + eq_separator()
            &&& t.subrange(45 + n1, 45 + n1 + n2) == d2
            &&& t[45 + n1 + n2] == 10
            &&& t.subrange(46 + n1 + n2, 68 + n1 + n2) == key_start_in_fullscreen()
                + eq_separator()
            &&& t.subrange(68 + n1 + n2, 68 + n1 + n2 + n3) == d3
            &&& t[68 + n1 + n2 + n3] == 10
        }),
{
    let d1 = int_bytes(c.physical_device_index as int);
    let d2 = int_bytes(c.audio_input_index as int);
    let d3 = bool_bytes(c.start_in_fullscreen);
    let n1 = d1.len() as int;
    let n2 = d2.len() as int;
    let n3 = d3.len() as int;
    let nl = seq![10u8];
    let s0 = key_physical_device_index() + eq_separator();
    let s1 = s0 + d1;
    let s2 = s1 + nl;
    let s3 = s2 + (key_audio_input_index() + eq_separator());
    let s4 = s3 + d2;
    let s5 = s4 + nl;
    let s6 = s5 + (key_start_in_fullscreen() + eq_separator());
    let s7 = s6 + d3;
    assert(s0.len() == 24);
    assert(t =~= s7 + nl);
    lemma_split(s7, s6, d3);
    lemma_split(s6, s5, key_start_in_fullscreen() + eq_separator());
    lemma_split(s5, s4, nl);
    lemma_split(s4, s3, d2);
    lemma_split(s3, s2, key_audio_input_index() + eq_separator());
    lemma_split(s2, s1, nl);
    lemma_split(s1, s0, d1);
    lemma_split(t, s7, nl);
    // line 1: lift the facts of s0 and s1 up to t
    lemma_sub_through(t, s7, nl, 0, 24);
    lemma_sub_through(s7, s6, d3, 0, 24);
    lemma_sub_through(s6, s5, key_start_in_fullscreen() + eq_separator(), 0, 24);
    lemma_sub_through(s5, s4, nl, 0, 24);
    lemma_sub_through(s4, s3, d2, 0, 24);
    lemma_sub_through(s3, s2, key_audio_input_index() + eq_separator(), 0, 24);
    lemma_sub_through(s2, s1, nl, 0, 24);
    lemma_sub_through(s1, s0, d1, 0, 24);
    lemma_sub_through(t, s7, nl, 24, 24 + n1);
    lemma_sub_through(s7, s6, d3, 24, 24 + n1);
    lemma_sub_through(s6, s5, key_start_in_fullscreen() + eq_separator(), 24, 24 + n1);
    lemma_sub_through(s5, s4, nl, 24, 24 + n1);
    lemma_sub_through(s4, s3, d2, 24, 24 + n1);
    lemma_sub_through(s3, s2, key_audio_input_index() + eq_separator(), 24, 24 + n1);
    lemma_sub_through(s2, s1, nl, 24, 24 + n1);
    assert(s2[24 + n1] == 10);
    // line 2
    lemma_sub_through(t, s7, nl, 25 + n1, 45 + n1);
    lemma_sub_through(s7, s6, d3, 25 + n1, 45 + n1);
    lemma_sub_through(s6, s5, key_start_in_fullscreen() + eq_separator(), 25 + n1, 45 + n1);
    lemma_sub_through(s5, s4, nl, 25 + n1, 45 + n1);
    lemma_sub_through(s4, s3, d2, 25 + n1, 45 + n1);
    lemma_sub_through(t, s7, nl, 45 + n1, 45 + n1 + n2);
    lemma_sub_through(s7, s6, d3, 45 + n1, 45 + n1 + n2);
    lemma_sub_through(s6, s5, key_start_in_fullscreen() + eq_separator(), 45 + n1, 45 + n1 + n2);
    lemma_sub_through(s5, s4, nl, 45 + n1, 45 + n1 + n2);
    assert(s5[45 + n1 + n2] == 10);
    // line 3
    lemma_sub_through(t, s7, nl, 46 + n1 + n2, 68 + n1 + n2);
    lemma_sub_through(s7, s6, d3, 46 + n1 + n2, 68 + n1 + n2);
    lemma_sub_through(t, s7, nl, 68 + n1 + n2, 68 + n1 + n2 + n3);
    assert(t[68 + n1 + n2 + n3] == 10);
}


/// Every byte of a serialized value is a digit or the minus sign, the
/// first byte tells the sign, the last is a digit, and the form is never
/// empty.
proof fn lemma_int_bytes_facts(v: int)
    ensures
        int_bytes(v).len() >= 1,
        forall|k: int|
            0 <= k < int_bytes(v).len() ==> (is_digit(#[trigger] int_bytes(v)[k]) || int_bytes(
                v,
            )[k] == 45),
        v >= 0 ==> is_digit(int_bytes(v)[0]),
        v < 0 ==> int_bytes(v)[0] == 45,
        is_digit(int_bytes(v).last()),
{
    if v < 0 {
        lemma_dec_bytes_digits((-v) as nat);
        assert forall|k: int|
            0 <= k < int_bytes(v).len() implies (is_digit(#[trigger] int_bytes(v)[k]) || int_bytes(
            v,
        )[k] == 45) by {
            if k > 0 {
                assert(int_bytes(v)[k] == dec_bytes((-v) as nat)[k - 1]);
            }
        }
        assert(int_bytes(v).last() == dec_bytes((-v) as nat).last());
    } else {
        lemma_dec_bytes_digits(v as nat);
    }
}

/// Two values with the same serialized form are the same value.
proof fn lemma_int_bytes_injective(v1: int, v2: int)
    requires
        int_bytes(v1) == int_bytes(v2),
    ensures
        v1 == v2,
{
    lemma_int_bytes_facts(v1);
    lemma_int_bytes_facts(v2);
    if v1 < 0 && v2 < 0 {
        lemma_dec_bytes_digits((-v1) as nat);
        lemma_dec_bytes_digits((-v2) as nat);
        assert(dec_bytes((-v1) as nat) =~= int_bytes(v1).skip(1));
        assert(dec_bytes((-v2) as nat) =~= int_bytes(v2).skip(1));
    } else if v1 >= 0 && v2 >= 0 {
        lemma_dec_bytes_digits(v1 as nat);
        lemma_dec_bytes_digits(v2 as nat);
    }
}

/// Two settings with the same document are the same settings.  Together
/// with the contracts of `parse` — a parsed result re-serializes to the
/// input, and every document parses — this says that parsing a document
/// recovers exactly the settings it was serialized from.
#[verifier::rlimit(100)]
pub proof fn lemma_config_doc_injective(c1: ENguyenConfig, c2: ENguyenConfig)
    requires
        spec_config_doc(c1) == spec_config_doc(c2),
    ensures
        c1 == c2,
{
    let t = spec_config_doc(c1);
    lemma_doc_layout(t, c1);
    lemma_doc_layout(t, c2);
    let d1a = int_bytes(c1.physical_device_index as int);
    let d1b = int_bytes(c2.physical_device_index as int);
    let n1a = d1a.len() as int;
    let n1b = d1b.len() as int;
    lemma_int_bytes_facts(c1.physical_device_index as int);
    lemma_int_bytes_facts(c2.physical_device_index as int);
    if n1a < n1b {
        assert(t.subrange(24, 24 + n1b)[n1a] == d1b[n1a]);
        assert(t[24 + n1a] == 10);
    } else if n1b < n1a {
        assert(t.subrange(24, 24 + n1a)[n1b] == d1a[n1b]);
        assert(t[24 + n1b] == 10);
    }
    assert(n1a == n1b);
    lemma_int_bytes_injective(c1.physical_device_index as int, c2.physical_device_index as int);
    let n1 = n1a;
    let d2a = int_bytes(c1.audio_input_index as int);
    let d2b = int_bytes(c2.audio_input_index as int);
    let n2a = d2a.len() as int;
    let n2b = d2b.len() as int;
    lemma_int_bytes_facts(c1.audio_input_index as int);
    lemma_int_bytes_facts(c2.audio_input_index as int);
    if n2a < n2b {
        assert(t.subrange(45 + n1, 45 + n1 + n2b)[n2a] == d2b[n2a]);
        assert(t[45 + n1 + n2a] == 10);
    } else if n2b < n2a {
        assert(t.subrange(45 + n1, 45 + n1 + n2a)[n2b] == d2a[n2b]);
        assert(t[45 + n1 + n2b] == 10);
    }
    assert(n2a == n2b);
    lemma_int_bytes_injective(c1.audio_input_index as int, c2.audio_input_index as int);
    let n2 = n2a;
    let d3a = bool_bytes(c1.start_in_fullscreen);
    let d3b = bool_bytes(c2.start_in_fullscreen);
    assert(t.len() == 69 + n1 + n2 + d3a.len());
    assert(t.len() == 69 + n1 + n2 + d3b.len());
    assert(d3a.len() == d3b.len());
    assert(c1.start_in_fullscreen == c2.start_in_fullscreen);
}



/// A byte a key may contain: not blank space, not the equals sign, not the
/// comment sign, not a newline.
pub open spec fn key_ok_byte(b: u8) -> bool {
    !is_ws(b) && b != 61 && b != 35 && b != 10
}

/// The three keys contain only bytes a key may contain.
proof fn lemma_key_facts()
    ensures
        forall|k: int|
            0 <= k < key_physical_device_index().len() ==> key_ok_byte(
                #[trigger] key_physical_device_index()[k],
            ),
        forall|k: int|
            0 <= k < key_audio_input_index().len() ==> key_ok_byte(
                #[trigger] key_audio_input_index()[k],
            ),
        forall|k: int|
            0 <= k < key_start_in_fullscreen().len() ==> key_ok_byte(
                #[trigger] key_start_in_fullscreen()[k],
            ),
{
}

/// The words `true` and `false` contain only bytes a key may contain.
proof fn lemma_bool_bytes_facts(b: bool)
    ensures
        forall|k: int| 0 <= k < bool_bytes(b).len() ==> key_ok_byte(#[trigger] bool_bytes(b)[k]),
{
}

/// A canonical `key = <integer>` line classifies as that assignment: the
/// scanners land on the fixed offsets and the value reads back.
proof fn lemma_classify_int_line(t: Seq<u8>, start: int, lend: int, key: Seq<u8>, value: int)
    requires
        0 <= start,
        start + key.len() + 3 <= lend <= t.len(),
        lend - (start + key.len() + 3) == int_bytes(value).len(),
        t.subrange(start, start + key.len() as int) == key,
        t[start + key.len() as int] == 32,
        t[start + key.len() as int + 1] == 61,
        t[start + key.len() as int + 2] == 32,
        t.subrange(start + key.len() as int + 3, lend) == int_bytes(value),
        key.len() >= 1,
        forall|k: int| 0 <= k < key.len() ==> key_ok_byte(#[trigger] key[k]),
        -2147483648 <= value <= 2147483647,
        lend == t.len() || t[lend] == 10,
        key == key_physical_device_index() || key == key_audio_input_index(),
    ensures
        line_break(t, start, t.len() as int) == lend,
        classify_line(t, start, lend) == (if key == key_physical_device_index() {
            LineEntry::DeviceIndex(value)
        } else {
            LineEntry::AudioIndex(value)
        }),
{
    let kl = key.len() as int;
    let vstart = start + kl + 3;
    let d = int_bytes(value);
    lemma_int_bytes_facts(value);
    lemma_pow10_values();
    assert forall|k: int| start <= k < lend implies (#[trigger] t[k] != 10 && t[k] != 35) by {
        if k < start + kl {
            assert(t[k] == key[k - start]);
        } else if k >= vstart {
            assert(t[k] == d[k - vstart]);
        }
    }
    lemma_line_break_hits(t, start, t.len() as int, lend - start);
    lemma_comment_start_hits(t, start, lend, lend - start);
    assert(t[start] == key[0]);
    lemma_skip_ws_hits(t, start, lend, 0);
    assert(t[lend - 1] == d[d.len() - 1]);
    assert(is_digit(t[lend - 1]) && !is_ws(t[lend - 1]));
    assert(trim_back(t, start, lend) == lend);
    assert forall|k: int| start <= k < start + kl implies (!is_ws(#[trigger] t[k]) && t[k]
        != 61) by {
        assert(t[k] == key[k - start]);
    }
    lemma_key_break_hits(t, start, lend, kl);
    assert(t[vstart] == d[0]);
    lemma_skip_ws_hits(t, start + kl, lend, 1);
    lemma_skip_ws_hits(t, start + kl + 2, lend, 1);
    // the value reads back
    let m = if value < 0 {
        -value
    } else {
        value
    };
    lemma_dec_bytes_digits(m as nat);
    lemma_dec_bytes_len(m as nat, 10);
    if value < 0 {
        assert(d[0] == 45);
        assert(t.subrange(vstart + 1, lend) =~= dec_bytes(m as nat)) by {
            assert forall|k: int| 0 <= k < lend - vstart - 1 implies #[trigger] t.subrange(
                vstart + 1,
                lend,
            )[k] == dec_bytes(m as nat)[k] by {
                assert(t[vstart + 1 + k] == d[1 + k]);
            }
        }
        assert forall|k: int| vstart + 1 <= k < lend implies is_digit(#[trigger] t[k]) by {
            assert(t[k] == dec_bytes(m as nat)[k - vstart - 1]);
        }
        assert(int_value(t, vstart, lend) == Some(value));
    } else {
        assert(is_digit(d[0]) && d[0] != 45 && d[0] != 43);
        assert(t.subrange(vstart, lend) == dec_bytes(m as nat));
        assert forall|k: int| vstart <= k < lend implies is_digit(#[trigger] t[k]) by {
            assert(t[k] == dec_bytes(m as nat)[k - vstart]);
        }
        assert(int_value(t, vstart, lend) == Some(value));
    }
}

/// A canonical `key = <boolean>` line classifies as that assignment.
proof fn lemma_classify_bool_line(t: Seq<u8>, start: int, lend: int, key: Seq<u8>, value: bool)
    requires
        0 <= start,
        start + key.len() + 3 <= lend <= t.len(),
        lend - (start + key.len() + 3) == bool_bytes(value).len(),
        t.subrange(start, start + key.len() as int) == key,
        t[start + key.len() as int] == 32,
        t[start + key.len() as int + 1] == 61,
        t[start + key.len() as int + 2] == 32,
        t.subrange(start + key.len() as int + 3, lend) == bool_bytes(value),
        key.len() >= 1,
        forall|k: int| 0 <= k < key.len() ==> key_ok_byte(#[trigger] key[k]),
        lend == t.len() || t[lend] == 10,
        key == key_start_in_fullscreen(),
    ensures
        line_break(t, start, t.len() as int) == lend,
        classify_line(t, start, lend) == LineEntry::Fullscreen(value),
{
    let kl = key.len() as int;
    let vstart = start + kl + 3;
    let d = bool_bytes(value);
    lemma_bool_bytes_facts(value);
    assert forall|k: int| start <= k < lend implies (#[trigger] t[k] != 10 && t[k] != 35) by {
        if k < start + kl {
            assert(t[k] == key[k - start]);
        } else if k >= vstart {
            assert(t[k] == d[k - vstart]);
            assert(key_ok_byte(d[k - vstart]));
        }
    }
    lemma_line_break_hits(t, start, t.len() as int, lend - start);
    lemma_comment_start_hits(t, start, lend, lend - start);
    assert(t[start] == key[0]);
    lemma_skip_ws_hits(t, start, lend, 0);
    assert(t[lend - 1] == d[d.len() - 1]);
    assert(key_ok_byte(d[d.len() - 1]) && !is_ws(t[lend - 1]));
    assert(trim_back(t, start, lend) == lend);
    assert forall|k: int| start <= k < start + kl implies (!is_ws(#[trigger] t[k]) && t[k]
        != 61) by {
        assert(t[k] == key[k - start]);
    }
    lemma_key_break_hits(t, start, lend, kl);
    assert(t[vstart] == d[0]);
    assert(key_ok_byte(d[0]));
    lemma_skip_ws_hits(t, start + kl, lend, 1);
    lemma_skip_ws_hits(t, start + kl + 2, lend, 1);
    assert(t.subrange(vstart, lend) == bool_bytes(value));
    if value {
        assert(bool_value(t, vstart, lend) == Some(true));
    } else {
        assert(t.subrange(vstart, lend).len() == 5);
        assert(t.subrange(vstart, lend) != bool_bytes(true));
        assert(bool_value(t, vstart, lend) == Some(false));
    }
}

/// Every document `to_toml_bytes` writes parses back to exactly the
/// settings it was written from: the round trip of the configuration
/// persistence.
#[verifier::rlimit(100)]
#[verifier::spinoff_prover]
pub proof fn lemma_canonical_doc_parses(c: ENguyenConfig)
    ensures
        spec_parse_config(spec_config_doc(c)) == Some(c),
{
    let t = spec_config_doc(c);
    lemma_doc_layout(t, c);
    lemma_key_facts();
    let d1 = int_bytes(c.physical_device_index as int);
    let d2 = int_bytes(c.audio_input_index as int);
    let d3 = bool_bytes(c.start_in_fullscreen);
    let n1 = d1.len() as int;
    let n2 = d2.len() as int;
    let n3 = d3.len() as int;
    // line 1 at 0
    assert(t.subrange(0, 21) =~= key_physical_device_index()) by {
        assert forall|k: int| 0 <= k < 21 implies t.subrange(0, 21)[k]
            == key_physical_device_index()[k] by {
            assert(t.subrange(0, 24)[k] == (key_physical_device_index() + eq_separator())[k]);
        }
    }
    assert(t[21] == 32 && t[22] == 61 && t[23] == 32) by {
        assert(t.subrange(0, 24)[21] == (key_physical_device_index() + eq_separator())[21]);
        assert(t.subrange(0, 24)[22] == (key_physical_device_index() + eq_separator())[22]);
        assert(t.subrange(0, 24)[23] == (key_physical_device_index() + eq_separator())[23]);
    }
    lemma_classify_int_line(
        t,
        0,
        24 + n1,
        key_physical_device_index(),
        c.physical_device_index as int,
    );
    assert(classify_line(t, 0, 24 + n1) == LineEntry::DeviceIndex(c.physical_device_index as int));
    assert(parse_doc(t, 0, None, None, None) == parse_doc(
        t,
        25 + n1,
        Some(c.physical_device_index as int),
        None,
        None,
    ));
    // line 2 at 25 + n1
    let s2 = 25 + n1;
    assert(t.subrange(s2, s2 + 17) =~= key_audio_input_index()) by {
        assert forall|k: int| 0 <= k < 17 implies t.subrange(s2, s2 + 17)[k]
            == key_audio_input_index()[k] by {
            assert(t.subrange(s2, s2 + 20)[k] == (key_audio_input_index() + eq_separator())[k]);
        }
    }
    assert(t[s2 + 17] == 32 && t[s2 + 18] == 61 && t[s2 + 19] == 32) by {
        assert(t.subrange(s2, s2 + 20)[17] == (key_audio_input_index() + eq_separator())[17]);
        assert(t.subrange(s2, s2 + 20)[18] == (key_audio_input_index() + eq_separator())[18]);
        assert(t.subrange(s2, s2 + 20)[19] == (key_audio_input_index() + eq_separator())[19]);
    }
    lemma_classify_int_line(
        t,
        s2,
        45 + n1 + n2,
        key_audio_input_index(),
        c.audio_input_index as int,
    );
    assert(classify_line(t, s2, 45 + n1 + n2) == LineEntry::AudioIndex(
        c.audio_input_index as int,
    ));
    assert(parse_doc(t, s2, Some(c.physical_device_index as int), None, None) == parse_doc(
        t,
        46 + n1 + n2,
        Some(c.physical_device_index as int),
        Some(c.audio_input_index as int),
        None,
    ));
    // line 3 at 46 + n1 + n2
    let s3 = 46 + n1 + n2;
    assert(t.subrange(s3, s3 + 19) =~= key_start_in_fullscreen()) by {
        assert forall|k: int| 0 <= k < 19 implies t.subrange(s3, s3 + 19)[k]
            == key_start_in_fullscreen()[k] by {
            assert(t.subrange(s3, s3 + 22)[k] == (key_start_in_fullscreen() + eq_separator())[k]);
        }
    }
    assert(t[s3 + 19] == 32 && t[s3 + 20] == 61 && t[s3 + 21] == 32) by {
        assert(t.subrange(s3, s3 + 22)[19] == (key_start_in_fullscreen() + eq_separator())[19]);
        assert(t.subrange(s3, s3 + 22)[20] == (key_start_in_fullscreen() + eq_separator())[20]);
        assert(t.subrange(s3, s3 + 22)[21] == (key_start_in_fullscreen() + eq_separator())[21]);
    }
    lemma_classify_bool_line(
        t,
        s3,
        68 + n1 + n2 + n3,
        key_start_in_fullscreen(),
        c.start_in_fullscreen,
    );
    assert(classify_line(t, s3, 68 + n1 + n2 + n3) == LineEntry::Fullscreen(c.start_in_fullscreen));
    assert(parse_doc(
        t,
        s3,
        Some(c.physical_device_index as int),
        Some(c.audio_input_index as int),
        None,
    ) == parse_doc(
        t,
        69 + n1 + n2 + n3,
        Some(c.physical_device_index as int),
        Some(c.audio_input_index as int),
        Some(c.start_in_fullscreen),
    ));
    assert(parse_doc(
        t,
        69 + n1 + n2 + n3,
        Some(c.physical_device_index as int),
        Some(c.audio_input_index as int),
        Some(c.start_in_fullscreen),
    ) == Some(c));
}

/// An `Option<i32>` seen at the width the document model uses.
pub open spec fn opt_wide(o: Option<i32>) -> Option<int> {
    match o {
        Some(v) => Some(v as int),
        None => None,
    }
}

/// What one executable line scan found; mirrors `LineEntry` at machine
/// width.
enum LineValue {
    Blank,
    Device(i32),
    Audio(i32),
    Fullscreen(bool),
    Bad,
}

/// The signed decimal scan, as executable code.
fn int_value_exec(text: &[u8], v: usize, e: usize) -> (r: Option<i32>)
    requires
        v < e <= text@.len(),
    ensures
        r matches Some(x) ==> int_value(text@, v as int, e as int) == Some(x as int),
        r is None ==> int_value(text@, v as int, e as int) is None,
{
    proof {
        lemma_pow10_values();
    }
    let first = text[v];
    let vs = if first == 45 || first == 43 {
        v + 1
    } else {
        v
    };
    if vs >= e {
        return None;
    }
    if e - vs > 10 {
        return None;
    }
    let mut i = vs;
    let mut acc: u64 = 0;
    while i < e
        invariant
            v < e,
            vs <= i <= e,
            e <= text@.len(),
            e - vs <= 10,
            first == text@[v as int],
            vs as int == (if first == 45 || first == 43 {
                v as int + 1
            } else {
                v as int
            }),
            forall|k: int| vs <= k < i ==> is_digit(#[trigger] text@[k]),
            acc == digits_val(text@.subrange(vs as int, i as int)),
            acc < pow10((i - vs) as nat),
            pow10(10) == 10_000_000_000,
            forall|a: nat, b: nat| a <= b ==> #[trigger] pow10(a) <= #[trigger] pow10(b),
        decreases e - i,
    {
        let b = text[i];
        if !(48 <= b && b <= 57) {
            proof {
                assert(!(forall|k: int|
                    vs as int <= k < e as int ==> is_digit(#[trigger] text@[k]))) by {
                    assert(!is_digit(text@[i as int]));
                }
            }
            return None;
        }
        let d = b - 48;
        proof {
            assert(pow10((i - vs) as nat) <= pow10(10));
            assert(pow10(((i + 1 - vs) as nat)) == 10 * pow10((i - vs) as nat));
        }
        acc = acc * 10 + d as u64;
        i += 1;
        proof {
            assert(text@.subrange(vs as int, i as int).drop_last() =~= text@.subrange(
                vs as int,
                i as int - 1,
            ));
            assert(text@.subrange(vs as int, i as int).last() == text@[i as int - 1]);
        }
    }
    if first == 45 {
        if acc > 2147483648 {
            return None;
        }
        let x = (-(acc as i64)) as i32;
        Some(x)
    } else {
        if acc > 2147483647 {
            return None;
        }
        Some(acc as i32)
    }
}

/// The boolean scan, as executable code.
fn bool_value_exec(text: &[u8], v: usize, e: usize) -> (r: Option<bool>)
    requires
        v < e <= text@.len(),
    ensures
        r matches Some(x) ==> bool_value(text@, v as int, e as int) == Some(x),
        r is None ==> bool_value(text@, v as int, e as int) is None,
{
    let word_true: [u8; 4] = [116, 114, 117, 101];
    let word_false: [u8; 5] = [102, 97, 108, 115, 101];
    proof {
        assert(word_true@ =~= bool_bytes(true));
        assert(word_false@ =~= bool_bytes(false));
    }
    if e - v == 4 && expect_bytes(text, v, &word_true) {
        proof {
            assert(text@.subrange(v as int, e as int) == bool_bytes(true));
        }
        Some(true)
    } else if e - v == 5 && expect_bytes(text, v, &word_false) {
        proof {
            assert(text@.subrange(v as int, e as int) == bool_bytes(false));
        }
        Some(false)
    } else {
        proof {
            assert(text@.subrange(v as int, e as int).len() == e - v);
            assert(text@.subrange(v as int, e as int) != bool_bytes(true));
            assert(text@.subrange(v as int, e as int) != bool_bytes(false));
        }
        None
    }
}

/// The line classification, as executable code.
fn classify_exec(text: &[u8], start: usize, endl: usize) -> (r: LineValue)
    requires
        start <= endl <= text@.len(),
    ensures
        ({
            let entry = classify_line(text@, start as int, endl as int);
            match r {
                LineValue::Blank => entry == LineEntry::Blank,
                LineValue::Device(x) => entry == LineEntry::DeviceIndex(x as int),
                LineValue::Audio(x) => entry == LineEntry::AudioIndex(x as int),
                LineValue::Fullscreen(b) => entry == LineEntry::Fullscreen(b),
                LineValue::Bad => entry == LineEntry::Bad,
            }
        }),
{
    let ce = find_comment_start(text, start, endl);
    let s = find_skip_ws(text, start, ce);
    let e = find_trim_back(text, s, ce);
    if s >= e {
        return LineValue::Blank;
    }
    let k = find_key_break(text, s, e);
    let eq = find_skip_ws(text, k, e);
    if eq >= e || text[eq] != 61 {
        return LineValue::Bad;
    }
    let v = find_skip_ws(text, eq + 1, e);
    if v >= e {
        return LineValue::Bad;
    }
    let key1: [u8; 21] = [
        112, 104, 121, 115, 105, 99, 97, 108, 95, 100, 101, 118, 105, 99, 101, 95, 105, 110, 100,
        101, 120,
    ];
    let key2: [u8; 17] = [
        97, 117, 100, 105, 111, 95, 105, 110, 112, 117, 116, 95, 105, 110, 100, 101, 120,
    ];
    let key3: [u8; 19] = [
        115, 116, 97, 114, 116, 95, 105, 110, 95, 102, 117, 108, 108, 115, 99, 114, 101, 101, 110,
    ];
    proof {
        assert(key1@ =~= key_physical_device_index());
        assert(key2@ =~= key_audio_input_index());
        assert(key3@ =~= key_start_in_fullscreen());
    }
    if k - s == 21 && expect_bytes(text, s, &key1) {
        proof {
            assert(text@.subrange(s as int, k as int) == key_physical_device_index());
        }
        match int_value_exec(text, v, e) {
            Some(x) => LineValue::Device(x),
            None => LineValue::Bad,
        }
    } else if k - s == 17 && expect_bytes(text, s, &key2) {
        proof {
            assert(text@.subrange(s as int, k as int) == key_audio_input_index());
        }
        match int_value_exec(text, v, e) {
            Some(x) => LineValue::Audio(x),
            None => LineValue::Bad,
        }
    } else if k - s == 19 && expect_bytes(text, s, &key3) {
        proof {
            assert(text@.subrange(s as int, k as int) == key_start_in_fullscreen());
        }
        match bool_value_exec(text, v, e) {
            Some(b) => LineValue::Fullscreen(b),
            None => LineValue::Bad,
        }
    } else {
        proof {
            assert(text@.subrange(s as int, k as int).len() == k - s);
            assert(text@.subrange(s as int, k as int) != key_physical_device_index());
            assert(text@.subrange(s as int, k as int) != key_audio_input_index());
            assert(text@.subrange(s as int, k as int) != key_start_in_fullscreen());
        }
        LineValue::Bad
    }
}

impl ENguyenConfig {
    /// Serializes the settings as their TOML document.
    pub fn to_toml_bytes(&self) -> (r: Vec<u8>)
        ensures
            r@ == spec_config_doc(*self),
    {
        let mut out: Vec<u8> = Vec::new();
        out.extend_from_slice(
            &[
                112u8, 104, 121, 115, 105, 99, 97, 108, 95, 100, 101, 118, 105, 99, 101, 95, 105,
                110, 100, 101, 120,
            ],
        );
        out.extend_from_slice(&[32u8, 61, 32]);
        push_int(&mut out, self.physical_device_index);
        out.push(10);
        out.extend_from_slice(
            &[97u8, 117, 100, 105, 111, 95, 105, 110, 112, 117, 116, 95, 105, 110, 100, 101, 120],
        );
        out.extend_from_slice(&[32u8, 61, 32]);
        push_int(&mut out, self.audio_input_index);
        out.push(10);
        out.extend_from_slice(
            &[
                115u8, 116, 97, 114, 116, 95, 105, 110, 95, 102, 117, 108, 108, 115, 99, 114, 101,
                101, 110,
            ],
        );
        out.extend_from_slice(&[32u8, 61, 32]);
        if self.start_in_fullscreen {
            out.extend_from_slice(&[116u8, 114, 117, 101]);
        } else {
            out.extend_from_slice(&[102u8, 97, 108, 115, 101]);
        }
        out.push(10);
        proof {
            assert(out@ =~= spec_config_doc(*self));
        }
        out
    }

    /// Parses a configuration document: the result is exactly what
    /// `spec_parse_config` says the bytes denote, so blank lines, comments,
    /// extra blank space, CRLF endings, reordered keys and a leading plus
    /// sign are all read, and every document `to_toml_bytes` writes parses
    /// back to the settings it was written from
    /// (`lemma_canonical_doc_parses`).
    pub fn parse(text: &[u8]) -> (r: Result<ENguyenConfig, ENguyenError>)
        ensures
            r matches Ok(c) ==> spec_parse_config(text@) == Some(c),
            spec_parse_config(text@) matches Some(c) ==> r matches Ok(rc) && rc == c,
            r matches Err(e) ==> e.message@ == "Config document rejected"@,
    {
        let n = text.len();
        let mut pos: usize = 0;
        let mut dev: Option<i32> = None;
        let mut ain: Option<i32> = None;
        let mut fs: Option<bool> = None;
        while pos < n
            invariant
                pos <= n,
                n == text@.len(),
                spec_parse_config(text@) == parse_doc(
                    text@,
                    pos as int,
                    opt_wide(dev),
                    opt_wide(ain),
                    fs,
                ),
            decreases n - pos,
        {
            let e = find_line_break(text, pos, n);
            let next = if e < n {
                e + 1
            } else {
                e
            };
            let entry = classify_exec(text, pos, e);
            match entry {
                LineValue::Blank => {
                    proof {
                        assert(parse_doc(text@, pos as int, opt_wide(dev), opt_wide(ain), fs)
                            == parse_doc(text@, next as int, opt_wide(dev), opt_wide(ain), fs));
                    }
                    pos = next;
                },
                LineValue::Device(x) => {
                    if dev.is_some() {
                        return Err(ENguyenError::from("Config document rejected"));
                    }
                    proof {
                        assert(parse_doc(text@, pos as int, opt_wide(dev), opt_wide(ain), fs)
                            == parse_doc(
                            text@,
                            next as int,
                            Some(x as int),
                            opt_wide(ain),
                            fs,
                        ));
                    }
                    dev = Some(x);
                    pos = next;
                },
                LineValue::Audio(x) => {
                    if ain.is_some() {
                        return Err(ENguyenError::from("Config document rejected"));
                    }
                    proof {
                        assert(parse_doc(text@, pos as int, opt_wide(dev), opt_wide(ain), fs)
                            == parse_doc(
                            text@,
                            next as int,
                            opt_wide(dev),
                            Some(x as int),
                            fs,
                        ));
                    }
                    ain = Some(x);
                    pos = next;
                },
                LineValue::Fullscreen(b) => {
                    if fs.is_some() {
                        return Err(ENguyenError::from("Config document rejected"));
                    }
                    proof {
                        assert(parse_doc(text@, pos as int, opt_wide(dev), opt_wide(ain), fs)
                            == parse_doc(text@, next as int, opt_wide(dev), opt_wide(ain), Some(b)));
                    }
                    fs = Some(b);
                    pos = next;
                },
                LineValue::Bad => {
                    return Err(ENguyenError::from("Config document rejected"));
                },
            }
        }
        if dev.is_some() && ain.is_some() && fs.is_some() {
            let c = ENguyenConfig {
                physical_device_index: dev.unwrap(),
                audio_input_index: ain.unwrap(),
                start_in_fullscreen: fs.unwrap(),
            };
            Ok(c)
        } else {
            Err(ENguyenError::from("Config document rejected"))
        }
    }
}

/// Parses a document into settings, or nothing when it is rejected.
pub fn try_load_config(text: &[u8]) -> (r: Option<ENguyenConfig>)
    ensures
        r matches Some(c) ==> spec_parse_config(text@) == Some(c),
        spec_parse_config(text@) matches Some(c) ==> r matches Some(rc) && rc == c,
{
    match ENguyenConfig::parse(text) {
        Ok(c) => Some(c),
        Err(_) => None,
    }
}

/// The default location of the configuration document.
pub fn default_config_path() -> (r: &'static str)
    ensures
        r@ == "~/.config/e-nguyen/e-nguyen.toml"@,
{
    "~/.config/e-nguyen/e-nguyen.toml"
}

} // verus!
