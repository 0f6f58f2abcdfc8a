//! Response decoding: the payload between the start marker and the
//! terminator, without its two checksum bytes, read as whitespace-separated
//! telemetry tokens or as a daily energy total.
use vstd::prelude::*;
use crate::checksum::{checksum_of, lemma_checksum_avoids_reserved, FRAME_START, TERMINATOR};
use crate::frame::frame_of;
use crate::text::{
    all_digits, ascii_string, ascii_text, decimal_digits, digits_value, is_ascii_bytes, is_digit,
    lemma_decimal_ascii, lemma_padded_ascii, lemma_pow10_mono, padded_digits, pow10, push_decimal, push_padded,
};

verus! {

/// The first index at or after `from` that holds `b`, or `s.len()` if none.
pub open spec fn find_from(s: Seq<u8>, b: u8, from: int) -> int
    decreases s.len() - from,
{
    if from < 0 || from >= s.len() {
        s.len() as int
    } else if s[from] == b {
        from
    } else {
        find_from(s, b, from + 1)
    }
}

/// The payload of a response: after the first `(`, up to the first
/// terminator after it, less the two checksum bytes before the terminator.
/// `None` when a marker is missing or nothing is left.
pub open spec fn response_payload(resp: Seq<u8>) -> Option<Seq<u8>> {
    let s = find_from(resp, FRAME_START, 0);
    let t = find_from(resp, TERMINATOR, s + 1);
    if s >= resp.len() || t >= resp.len() || t - 2 <= s + 1 {
        None
    } else {
        Some(resp.subrange(s + 1, t - 2))
    }
}

/// ASCII whitespace: space, tab, line feed, vertical tab, form feed,
/// carriage return.
pub open spec fn is_space(b: u8) -> bool {
    b == 0x20 || (0x09 <= b <= 0x0D)
}

/// Characters that a telemetry token keeps: ASCII letters, digits and `.`.
pub open spec fn is_token_char(b: u8) -> bool {
    (0x30 <= b <= 0x39) || (0x41 <= b <= 0x5A) || (0x61 <= b <= 0x7A) || b == 0x2E
}

/// The two-byte UTF-8 forms of whitespace: next line (U+0085) and no-break
/// space (U+00A0).
pub open spec fn is_space2(a: u8, b: u8) -> bool {
    a == 0xC2 && (b == 0x85 || b == 0xA0)
}

/// The three-byte UTF-8 forms of whitespace: U+1680, U+2000 to U+200A,
/// U+2028, U+2029, U+202F, U+205F and U+3000.
pub open spec fn is_space3(a: u8, b: u8, c: u8) -> bool {
    (a == 0xE1 && b == 0x9A && c == 0x80) || (a == 0xE2 && b == 0x80 && ((0x80 <= c <= 0x8A)
        || c == 0xA8 || c == 0xA9 || c == 0xAF)) || (a == 0xE2 && b == 0x81 && c == 0x9F) || (a
        == 0xE3 && b == 0x80 && c == 0x80)
}

/// Length in bytes of the whitespace character that starts at `i`, or zero
/// when none does. The lead bytes of these forms are never continuation
/// bytes, so a UTF-8 decoder (lossy or not) reads each of them as one
/// character wherever it stands.
pub open spec fn space_len(s: Seq<u8>, i: int) -> int {
    if 0 <= i < s.len() && is_space(s[i]) {
        1
    } else if 0 <= i && i + 1 < s.len() && is_space2(s[i], s[i + 1]) {
        2
    } else if 0 <= i && i + 2 < s.len() && is_space3(s[i], s[i + 1], s[i + 2]) {
        3
    } else {
        0
    }
}

/// The words of `s` from index `i` on, `cur` being the part of the current
/// word already read.
pub open spec fn split_from(s: Seq<u8>, i: int, cur: Seq<u8>) -> Seq<Seq<u8>>
    decreases s.len() - i,
{
    if i < 0 || i >= s.len() {
        if cur.len() > 0 {
            seq![cur]
        } else {
            Seq::empty()
        }
    } else if space_len(s, i) > 0 {
        let rest = split_from(s, i + space_len(s, i), Seq::empty());
        if cur.len() > 0 {
            seq![cur] + rest
        } else {
            rest
        }
    } else {
        split_from(s, i + 1, cur.push(s[i]))
    }
}

/// The maximal runs of `s` that hold no whitespace character (ASCII, or
/// Unicode whitespace in UTF-8), in order.
pub open spec fn words(s: Seq<u8>) -> Seq<Seq<u8>> {
    split_from(s, 0, Seq::empty())
}

/// A token with every byte that is not a letter, a digit or `.` removed.
pub open spec fn sanitize(t: Seq<u8>) -> Seq<u8>
    decreases t.len(),
{
    if t.len() == 0 {
        Seq::empty()
    } else if is_token_char(t.last()) {
        sanitize(t.drop_last()).push(t.last())
    } else {
        sanitize(t.drop_last())
    }
}

/// The telemetry tokens of a payload.
pub open spec fn telemetry_tokens(payload: Seq<u8>) -> Seq<Seq<char>> {
    words(payload).map_values(|w: Seq<u8>| ascii_text(sanitize(w)))
}

/// What a primary (telemetry) response decodes to.
pub open spec fn telemetry_fields(resp: Seq<u8>) -> Option<Seq<Seq<char>>> {
    match response_payload(resp) {
        Some(p) => Some(telemetry_tokens(p)),
        None => None,
    }
}

/// Length of the run of ASCII digits that starts at `i`.
pub open spec fn digit_run(s: Seq<u8>, i: int) -> int
    decreases s.len() - i,
{
    if 0 <= i < s.len() && is_digit(s[i]) {
        digit_run(s, i + 1)
    } else {
        i
    }
}

/// Most digits an energy total may have, so that it fits a `u64`.
pub const MAX_ENERGY_DIGITS: usize = 18;

/// Watt-hours as kilowatt-hours with two fraction digits, rounded to the
/// nearest hundredth (a half rounds up).
pub open spec fn kwh_text(wh: nat) -> Seq<u8> {
    let cents = (wh + 5) / 10;
    decimal_digits(cents / 100) + seq![0x2Eu8] + padded_digits(cents % 100, 2)
}

/// What an energy-total response decodes to: the run of digits that starts
/// the payload, read as watt-hours and written as kilowatt-hours. `None`
/// when a marker is missing, the payload is empty or does not start with a
/// digit, or the run is longer than eighteen digits.
pub open spec fn energy_total(resp: Seq<u8>) -> Option<Seq<char>> {
    match response_payload(resp) {
        Some(p) => {
            let n = digit_run(p, 0);
            if 0 < n <= MAX_ENERGY_DIGITS {
                Some(ascii_text(kwh_text(digits_value(p.subrange(0, n)))))
            } else {
                None
            }
        },
        None => None,
    }
}

/// The first index at or after `from` that holds `b`, or the length.
pub fn find_byte(s: &[u8], b: u8, from: usize) -> (r: usize)
    ensures
        r == find_from(s@, b, from as int),
        r <= s@.len(),
        r < s@.len() ==> r >= from && s@[r as int] == b,
        forall|m: int| from <= m < r ==> s@[m] != b,
{
    let len: usize = s.len();
    let mut i: usize = from;
    if i >= len {
        return len;
    }
    while i < len
        invariant
            len == s@.len(),
            from <= i <= len,
            find_from(s@, b, from as int) == find_from(s@, b, i as int),
            forall|m: int| from <= m < i ==> s@[m] != b,
        decreases len - i,
    {
        if s[i] == b {
            return i;
        }
        i = i + 1;
    }
    i
}

/// Where the payload lies in a response, as `(first, end)`.
fn payload_bounds(resp: &[u8]) -> (r: Option<(usize, usize)>)
    ensures
        match r {
            Some((lo, hi)) => lo < hi <= resp@.len() && response_payload(resp@) == Some(
                resp@.subrange(lo as int, hi as int),
            ),
            None => response_payload(resp@) is None,
        },
{
    let len: usize = resp.len();
    let s = find_byte(resp, FRAME_START, 0);
    if s >= len {
        return None;
    }
    let t = find_byte(resp, TERMINATOR, s + 1);
    if t >= len || t <= s || t - s <= 3 {
        return None;
    }
    Some((s + 1, t - 2))
}

/// `space_len` of `resp[lo..hi]` at `i - lo`.
fn space_len_at(resp: &[u8], lo: usize, hi: usize, i: usize) -> (r: usize)
    requires
        lo <= i < hi <= resp@.len(),
    ensures
        r == space_len(resp@.subrange(lo as int, hi as int), i - lo),
        r <= 3,
{
    let ghost p = resp@.subrange(lo as int, hi as int);
    let ghost j = i - lo;
    let a = resp[i];
    assert(p[j] == a);
    if a == 0x20 || (0x09 <= a && a <= 0x0D) {
        return 1;
    }
    if hi - i >= 2 {
        let b = resp[i + 1];
        assert(p[j + 1] == b);
        if a == 0xC2 && (b == 0x85 || b == 0xA0) {
            return 2;
        }
        if hi - i >= 3 {
            let c = resp[i + 2];
            assert(p[j + 2] == c);
            if (a == 0xE1 && b == 0x9A && c == 0x80) || (a == 0xE2 && b == 0x80 && ((0x80 <= c
                && c <= 0x8A) || c == 0xA8 || c == 0xA9 || c == 0xAF)) || (a == 0xE2 && b == 0x81
                && c == 0x9F) || (a == 0xE3 && b == 0x80 && c == 0x80) {
                return 3;
            }
        }
    }
    0
}

/// The whitespace-separated words of `resp[lo..hi]`.
fn split_words(resp: &[u8], lo: usize, hi: usize) -> (r: Vec<Vec<u8>>)
    requires
        lo <= hi <= resp@.len(),
    ensures
        r@.map_values(|v: Vec<u8>| v@) == words(resp@.subrange(lo as int, hi as int)),
{
    let ghost p = resp@.subrange(lo as int, hi as int);
    let mut done: Vec<Vec<u8>> = Vec::new();
    let mut cur: Vec<u8> = Vec::new();
    let mut i: usize = lo;
    assert(done@.map_values(|v: Vec<u8>| v@) + split_from(p, 0, cur@) =~= words(p));
    while i < hi
        invariant
            lo <= i <= hi <= resp@.len(),
            p == resp@.subrange(lo as int, hi as int),
            done@.map_values(|v: Vec<u8>| v@) + split_from(p, i - lo, cur@) == words(p),
        decreases hi - i,
    {
        let ghost j = i - lo;
        let ghost old_done = done@.map_values(|v: Vec<u8>| v@);
        let ghost old_cur = cur@;
        let k = space_len_at(resp, lo, hi, i);
        if k > 0 {
            let ghost rest = split_from(p, j + k, Seq::empty());
            if cur.len() > 0 {
                let word = cur;
                cur = Vec::new();
                done.push(word);
                assert(done@.map_values(|v: Vec<u8>| v@) =~= old_done.push(word@));
                assert(old_done + (seq![word@] + rest) =~= old_done.push(word@) + rest);
            } else {
                cur = Vec::new();
                assert(cur@ =~= Seq::<u8>::empty());
                assert(old_cur =~= Seq::<u8>::empty());
            }
            i = i + k;
        } else {
            let b = resp[i];
            assert(p[j] == b);
            cur.push(b);
            i = i + 1;
        }
    }
    if cur.len() > 0 {
        let ghost old_done = done@.map_values(|v: Vec<u8>| v@);
        done.push(cur);
        assert(done@.map_values(|v: Vec<u8>| v@) =~= old_done.push(cur@));
        assert(old_done + seq![cur@] =~= old_done.push(cur@));
    } else {
        assert(done@.map_values(|v: Vec<u8>| v@) + Seq::<Seq<u8>>::empty() =~= done@.map_values(
            |v: Vec<u8>| v@,
        ));
    }
    done
}

/// Keeps the letters, digits and `.` of a token.
fn sanitize_token(t: &Vec<u8>) -> (r: Vec<u8>)
    ensures
        r@ == sanitize(t@),
        is_ascii_bytes(r@),
{
    let mut out: Vec<u8> = Vec::new();
    let mut i: usize = 0;
    while i < t.len()
        invariant
            i <= t@.len(),
            out@ == sanitize(t@.subrange(0, i as int)),
            is_ascii_bytes(out@),
        decreases t.len() - i,
    {
        let b = t[i];
        assert(t@.subrange(0, i + 1).drop_last() =~= t@.subrange(0, i as int));
        assert(t@.subrange(0, i + 1).last() == b);
        if (0x30 <= b && b <= 0x39) || (0x41 <= b && b <= 0x5A) || (0x61 <= b && b <= 0x7A) || b
            == 0x2E {
            out.push(b);
        }
        i = i + 1;
    }
    assert(t@.subrange(0, i as int) =~= t@);
    out
}

/// Decodes a primary (telemetry) response into its sanitized tokens; `None`
/// when the start marker or the terminator is missing or the payload is
/// empty.
pub fn decode_telemetry(resp: &[u8]) -> (r: Option<Vec<String>>)
    ensures
        match r {
            Some(v) => telemetry_fields(resp@) == Some(v@.map_values(|s: String| s@)),
            None => telemetry_fields(resp@) is None,
        },
{
    match payload_bounds(resp) {
        None => None,
        Some((lo, hi)) => {
            let raw = split_words(resp, lo, hi);
            let ghost ws = words(resp@.subrange(lo as int, hi as int));
            assert(raw@.len() == ws.len());
            let mut out: Vec<String> = Vec::new();
            let mut i: usize = 0;
            while i < raw.len()
                invariant
                    i <= raw@.len(),
                    raw@.map_values(|v: Vec<u8>| v@) == ws,
                    out@.len() == i,
                    forall|j: int|
                        0 <= j < i ==> (#[trigger] out@[j])@ == ascii_text(sanitize(ws[j])),
                decreases raw.len() - i,
            {
                assert(raw@[i as int]@ == ws[i as int]);
                let clean = sanitize_token(&raw[i]);
                let s = ascii_string(clean.as_slice());
                out.push(s);
                i = i + 1;
            }
            assert(out@.map_values(|s: String| s@) =~= telemetry_tokens(
                resp@.subrange(lo as int, hi as int),
            ));
            Some(out)
        },
    }
}

/// The text of a daily total in kilowatt-hours, from watt-hours.
pub fn format_kwh(wh: u64) -> (r: String)
    ensures
        r@ == ascii_text(kwh_text(wh as nat)),
{
    let cents: u64 = wh / 10 + if wh % 10 >= 5 {
        1
    } else {
        0
    };
    assert(cents == (wh + 5) / 10);
    let mut out: Vec<u8> = Vec::new();
    push_decimal(&mut out, cents / 100);
    out.push(0x2Eu8);
    push_padded(&mut out, cents % 100, 2);
    assert(out@ =~= kwh_text(wh as nat));
    assert(is_ascii_bytes(out@)) by {
        lemma_kwh_text_ascii(wh as nat);
    }
    ascii_string(out.as_slice())
}

proof fn lemma_kwh_text_ascii(wh: nat)
    ensures
        is_ascii_bytes(kwh_text(wh)),
{
    let cents = (wh + 5) / 10;
    lemma_decimal_ascii(cents / 100);
    lemma_padded_ascii(cents % 100, 2);
}

/// Decodes an energy-total response into kilowatt-hours with two fraction
/// digits; `None` when the payload is missing, does not start with a digit,
/// or starts with more than eighteen digits.
pub fn decode_energy_total(resp: &[u8]) -> (r: Option<String>)
    ensures
        match r {
            Some(s) => energy_total(resp@) == Some(s@),
            None => energy_total(resp@) is None,
        },
{
    match payload_bounds(resp) {
        None => None,
        Some((lo, hi)) => {
            let ghost p = resp@.subrange(lo as int, hi as int);
            let mut i: usize = lo;
            let mut wh: u64 = 0;
            while i < hi && i - lo < MAX_ENERGY_DIGITS + 1 && 0x30 <= resp[i] && resp[i] <= 0x39
                invariant
                    lo <= i <= hi <= resp@.len(),
                    i - lo <= MAX_ENERGY_DIGITS + 1,
                    p == resp@.subrange(lo as int, hi as int),
                    digit_run(p, 0) == digit_run(p, i - lo),
                    all_digits(p.subrange(0, i - lo)),
                    i - lo <= MAX_ENERGY_DIGITS ==> wh == digits_value(p.subrange(0, i - lo)),
                    i - lo <= MAX_ENERGY_DIGITS ==> wh < pow10((i - lo) as nat),
                decreases hi - i,
            {
                let ghost k = i - lo;
                assert(p.subrange(0, k + 1).drop_last() =~= p.subrange(0, k));
                assert(p[k] == resp@[i as int]);
                if i - lo < MAX_ENERGY_DIGITS {
                    assert(pow10((k + 1) as nat) == 10 * pow10(k as nat));
                    proof {
                        lemma_pow10_mono(k as nat, 17);
                        lemma_pow10_17();
                    }
                    wh = wh * 10 + (resp[i] - 0x30) as u64;
                }
                assert(all_digits(p.subrange(0, k + 1))) by {
                    assert forall|j: int| 0 <= j < k + 1 implies is_digit(
                        #[trigger] p.subrange(0, k + 1)[j],
                    ) by {
                        if j < k {
                            assert(p.subrange(0, k + 1)[j] == p.subrange(0, k)[j]);
                        }
                    }
                }
                i = i + 1;
            }
            assert forall|m: int| 0 <= m < i - lo implies is_digit(#[trigger] p[m]) by {
                assert(p[m] == p.subrange(0, i - lo)[m]);
            }
            if i - lo > MAX_ENERGY_DIGITS {
                proof {
                    lemma_digit_run_at_least(p, 0, (i - lo) as int);
                }
                return None;
            }
            assert(digit_run(p, i - lo) == i - lo);
            if i == lo {
                return None;
            }
            Some(format_kwh(wh))
        },
    }
}

/// `10^17`, the largest power of ten below which an eighteen-digit run
/// stays while it is read.
proof fn lemma_pow10_17()
    ensures
        pow10(17) == 100_000_000_000_000_000,
{
    reveal_with_fuel(pow10, 18);
}

/// A run that is all digits from `i` up to `j` reaches at least `j`.
proof fn lemma_digit_run_at_least(p: Seq<u8>, i: int, j: int)
    requires
        0 <= i <= j <= p.len(),
        forall|m: int| i <= m < j ==> is_digit(#[trigger] p[m]),
    ensures
        digit_run(p, i) >= j,
    decreases j - i,
{
    if i < j {
        lemma_digit_run_at_least(p, i + 1, j);
    } else {
        lemma_digit_run_ge(p, i);
    }
}

proof fn lemma_digit_run_ge(p: Seq<u8>, i: int)
    requires
        0 <= i,
    ensures
        digit_run(p, i) >= i,
    decreases p.len() - i,
{
    if 0 <= i < p.len() && is_digit(p[i]) {
        lemma_digit_run_ge(p, i + 1);
    }
}

/// `find_from` stops at the first match at or after its start.
pub proof fn lemma_find_from_is(s: Seq<u8>, b: u8, from: int, j: int)
    requires
        0 <= from <= j < s.len(),
        s[j] == b,
        forall|m: int| from <= m < j ==> s[m] != b,
    ensures
        find_from(s, b, from) == j,
    decreases j - from,
{
    if from < j {
        lemma_find_from_is(s, b, from + 1, j);
    }
}

/// Every byte is a letter, a digit or `.`.
pub open spec fn all_token_chars(w: Seq<u8>) -> bool {
    forall|m: int| 0 <= m < w.len() ==> is_token_char(#[trigger] w[m])
}

/// Sanitizing a token made only of kept characters changes nothing.
pub proof fn lemma_sanitize_clean(w: Seq<u8>)
    requires
        all_token_chars(w),
    ensures
        sanitize(w) == w,
    decreases w.len(),
{
    if w.len() > 0 {
        let t = w.drop_last();
        assert(all_token_chars(t)) by {
            assert forall|m: int| 0 <= m < t.len() implies is_token_char(#[trigger] t[m]) by {
                assert(t[m] == w[m]);
            }
        }
        lemma_sanitize_clean(t);
        assert(is_token_char(w[w.len() - 1]));
        assert(t.push(w.last()) =~= w);
    }
}

/// When `s` holds only kept characters and ASCII whitespace, every word
/// read from `i` on (with `cur` read so far) holds only kept characters.
proof fn lemma_split_clean(s: Seq<u8>, i: int, cur: Seq<u8>)
    requires
        forall|m: int| 0 <= m < s.len() ==> is_token_char(#[trigger] s[m]) || is_space(s[m]),
        all_token_chars(cur),
    ensures
        forall|j: int|
            0 <= j < split_from(s, i, cur).len() ==> all_token_chars(
                #[trigger] split_from(s, i, cur)[j],
            ),
    decreases s.len() - i,
{
    if i < 0 || i >= s.len() {
        if cur.len() > 0 {
            assert(split_from(s, i, cur) == seq![cur]);
            assert(seq![cur][0] == cur);
        }
    } else if space_len(s, i) > 0 {
        let rest = split_from(s, i + space_len(s, i), Seq::empty());
        assert(all_token_chars(Seq::<u8>::empty()));
        lemma_split_clean(s, i + space_len(s, i), Seq::empty());
        if cur.len() > 0 {
            assert(split_from(s, i, cur) == seq![cur] + rest);
            let r = seq![cur] + rest;
            assert forall|j: int| 0 <= j < r.len() implies all_token_chars(#[trigger] r[j]) by {
                if j > 0 {
                    assert(r[j] == rest[j - 1]);
                }
            }
        }
    } else {
        assert(is_token_char(s[i]));
        let c = cur.push(s[i]);
        assert(all_token_chars(c)) by {
            assert forall|m: int| 0 <= m < c.len() implies is_token_char(#[trigger] c[m]) by {
                if m < cur.len() {
                    assert(c[m] == cur[m]);
                }
            }
        }
        lemma_split_clean(s, i + 1, c);
        assert(split_from(s, i, cur) == split_from(s, i + 1, c));
    }
}

/// The tokens of a payload made only of letters, digits, `.` and ASCII
/// whitespace are its whitespace-separated words, unchanged.
pub proof fn lemma_clean_payload_tokens(payload: Seq<u8>)
    requires
        forall|m: int|
            0 <= m < payload.len() ==> is_token_char(#[trigger] payload[m]) || is_space(payload[m]),
    ensures
        telemetry_tokens(payload) == words(payload).map_values(|w: Seq<u8>| ascii_text(w)),
{
    let ws = words(payload);
    lemma_split_clean(payload, 0, Seq::empty());
    assert forall|j: int| 0 <= j < ws.len() implies #[trigger] sanitize(ws[j]) == ws[j] by {
        lemma_sanitize_clean(ws[j]);
    }
    assert(telemetry_tokens(payload) =~= ws.map_values(|w: Seq<u8>| ascii_text(w)));
}

/// Framing a payload that holds no terminator, echoing the frame behind a
/// start marker and decoding the echo gives back exactly the payload, and so
/// its tokens; when the payload is made of letters, digits, `.` and
/// whitespace, those tokens are its words, unchanged and in order.
pub proof fn lemma_frame_echo_round_trip(payload: Seq<u8>)
    requires
        payload.len() > 0,
        forall|i: int| 0 <= i < payload.len() ==> #[trigger] payload[i] != TERMINATOR,
    ensures
        response_payload(seq![FRAME_START] + frame_of(payload)) == Some(payload),
        telemetry_fields(seq![FRAME_START] + frame_of(payload)) == Some(
            telemetry_tokens(payload),
        ),
        (forall|m: int|
            0 <= m < payload.len() ==> is_token_char(#[trigger] payload[m]) || is_space(
                payload[m],
            )) ==> telemetry_fields(seq![FRAME_START] + frame_of(payload)) == Some(
            words(payload).map_values(|w: Seq<u8>| ascii_text(w)),
        ),
{
    let echo = seq![FRAME_START] + frame_of(payload);
    let n = payload.len() as int;
    let c = checksum_of(payload);
    lemma_checksum_avoids_reserved(payload);
    assert(echo[0] == FRAME_START);
    lemma_find_from_is(echo, FRAME_START, 0, 0);
    assert(echo[n + 1] == c.high);
    assert(echo[n + 2] == c.low);
    assert(echo[n + 3] == TERMINATOR);
    assert forall|m: int| 1 <= m < n + 3 implies echo[m] != TERMINATOR by {
        if m <= n {
            assert(echo[m] == payload[m - 1]);
        }
    }
    lemma_find_from_is(echo, TERMINATOR, 1, n + 3);
    assert(echo.subrange(1, n + 1) =~= payload);
    if forall|m: int|
        0 <= m < payload.len() ==> is_token_char(#[trigger] payload[m]) || is_space(payload[m]) {
        lemma_clean_payload_tokens(payload);
    }
}

} // verus!
