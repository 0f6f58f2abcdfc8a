//! Power derived from telemetry fields: decimal readings in thousandths,
//! a configurable field layout, and each device's photovoltaic and load
//! power in millionths of a watt.
use vstd::prelude::*;
use vstd::utf8::encode_utf8;
use crate::decode::{find_byte, find_from};
use crate::text::{all_digits, digits_value, is_digit, lemma_pow10_mono, pow10};

verus! {

/// Most photovoltaic input channels a layout may name.
pub const MAX_PV_CHANNELS: usize = 8;

/// Most digits before the decimal point of a reading.
pub const MAX_INT_DIGITS: usize = 9;

/// Upper bound (exclusive) of a reading in thousandths.
pub const READING_BOUND: u64 = 1_000_000_000_000;

/// The first three fraction digits, padded with zeros.
pub open spec fn first_three(frac: Seq<u8>) -> Seq<u8> {
    (frac + seq![0x30u8, 0x30u8, 0x30u8]).subrange(0, 3)
}

/// A decimal reading `digits[.digits]` in thousandths (fraction digits past
/// the third are dropped). `None` when the text is anything else, has no
/// digit at all, or has more than nine digits before the point.
pub open spec fn decimal_milli(s: Seq<u8>) -> Option<nat> {
    let dot = find_from(s, 0x2E, 0);
    let int_part = s.subrange(0, dot);
    let frac = if dot < s.len() {
        s.subrange(dot + 1, s.len() as int)
    } else {
        Seq::empty()
    };
    if all_digits(int_part) && all_digits(frac) && int_part.len() + frac.len() > 0
        && int_part.len() <= MAX_INT_DIGITS {
        Some(digits_value(int_part) * 1000 + digits_value(first_three(frac)))
    } else {
        None
    }
}

/// The reading of field `i`, in thousandths; zero when the field is missing
/// or does not parse.
pub open spec fn field_value(fields: Seq<Seq<char>>, i: int) -> nat {
    if 0 <= i < fields.len() {
        match decimal_milli(encode_utf8(fields[i])) {
            Some(v) => v,
            None => 0,
        }
    } else {
        0
    }
}

/// Field positions of one photovoltaic input.
#[derive(Clone, Copy, Debug, PartialEq, Eq, Structural)]
pub struct PvChannel {
    pub voltage: usize,
    pub current: usize,
}

/// Sum over the channels of voltage times current, in millionths.
pub open spec fn pv_sum(fields: Seq<Seq<char>>, chans: Seq<PvChannel>) -> nat
    decreases chans.len(),
{
    if chans.len() == 0 {
        0
    } else {
        let c = chans.last();
        pv_sum(fields, chans.drop_last()) + field_value(fields, c.voltage as int) * field_value(
            fields,
            c.current as int,
        )
    }
}

/// Which telemetry field holds which quantity, and how many fields a reply
/// must have before any of them is used.
pub struct FieldLayout {
    pv_channels: Vec<PvChannel>,
    load_power: usize,
    min_fields: usize,
}

impl FieldLayout {
    #[verifier::type_invariant]
    spec fn inv(&self) -> bool {
        self.pv_channels@.len() <= MAX_PV_CHANNELS
    }

    /// The photovoltaic inputs.
    pub closed spec fn channels(&self) -> Seq<PvChannel> {
        self.pv_channels@
    }

    /// The field of the instantaneous load power.
    pub closed spec fn load_index(&self) -> usize {
        self.load_power
    }

    /// The fewest fields a reply needs to contribute.
    pub closed spec fn min_len(&self) -> usize {
        self.min_fields
    }

    /// A layout, when it names at most eight inputs and every position lies
    /// below `min_fields`.
    pub fn new(pv_channels: Vec<PvChannel>, load_power: usize, min_fields: usize) -> (r: Option<
        FieldLayout,
    >)
        ensures
            r is Some <==> pv_channels@.len() <= MAX_PV_CHANNELS && load_power < min_fields
                && forall|i: int|
                0 <= i < pv_channels@.len() ==> (#[trigger] pv_channels@[i]).voltage < min_fields
                    && pv_channels@[i].current < min_fields,
            r matches Some(l) ==> l.channels() == pv_channels@ && l.load_index() == load_power
                && l.min_len() == min_fields,
    {
        if pv_channels.len() > MAX_PV_CHANNELS || load_power >= min_fields {
            return None;
        }
        let mut i: usize = 0;
        while i < pv_channels.len()
            invariant
                i <= pv_channels@.len(),
                forall|j: int|
                    0 <= j < i ==> (#[trigger] pv_channels@[j]).voltage < min_fields
                        && pv_channels@[j].current < min_fields,
            decreases pv_channels.len() - i,
        {
            if pv_channels[i].voltage >= min_fields || pv_channels[i].current >= min_fields {
                return None;
            }
            i = i + 1;
        }
        Some(FieldLayout { pv_channels, load_power, min_fields })
    }

    /// The parallel-status reply of these units: inputs at fields 14 / 25
    /// and 27 / 28 (voltage / current), load power at field 9, and 29 fields
    /// in all.
    pub fn parallel_status() -> (r: FieldLayout)
        ensures
            r.channels() == seq![
                PvChannel { voltage: 14, current: 25 },
                PvChannel { voltage: 27, current: 28 },
            ],
            r.load_index() == 9,
            r.min_len() == 29,
    {
        let mut chans: Vec<PvChannel> = Vec::new();
        chans.push(PvChannel { voltage: 14, current: 25 });
        chans.push(PvChannel { voltage: 27, current: 28 });
        assert(chans@ =~= seq![
            PvChannel { voltage: 14, current: 25 },
            PvChannel { voltage: 27, current: 28 },
        ]);
        FieldLayout { pv_channels: chans, load_power: 9, min_fields: 29 }
    }
}

/// Photovoltaic and load power, in millionths of a watt.
#[derive(Clone, Copy, Debug, PartialEq, Eq, Structural)]
pub struct PowerSample {
    pub pv_power: u128,
    pub load_power: u128,
}

/// A device's photovoltaic power; zero for a reply shorter than the layout.
pub open spec fn device_pv(fields: Seq<Seq<char>>, layout: FieldLayout) -> nat {
    if fields.len() >= layout.min_len() {
        pv_sum(fields, layout.channels())
    } else {
        0
    }
}

/// A device's load power; zero for a reply shorter than the layout.
pub open spec fn device_load(fields: Seq<Seq<char>>, layout: FieldLayout) -> nat {
    if fields.len() >= layout.min_len() {
        field_value(fields, layout.load_index() as int) * 1000
    } else {
        0
    }
}

/// Upper bound (exclusive) of one device's photovoltaic power.
pub const DEVICE_PV_BOUND: u128 = 8_000_000_000_000_000_000_000_000;

/// Upper bound (exclusive) of one device's load power.
pub const DEVICE_LOAD_BOUND: u128 = 1_000_000_000_000_000;

/// The text of each field.
pub open spec fn field_texts(fields: Seq<String>) -> Seq<Seq<char>> {
    fields.map_values(|s: String| s@)
}

/// Parses a decimal reading into thousandths.
pub fn parse_milli(s: &[u8]) -> (r: Option<u64>)
    ensures
        match r {
            Some(v) => decimal_milli(s@) == Some(v as nat),
            None => decimal_milli(s@) is None,
        },
        r matches Some(v) ==> v < READING_BOUND,
{
    let len: usize = s.len();
    let dot = find_byte(s, 0x2E, 0);
    let ghost int_part = s@.subrange(0, dot as int);
    let ghost frac = if dot < len {
        s@.subrange(dot + 1, len as int)
    } else {
        Seq::empty()
    };
    if dot > MAX_INT_DIGITS {
        return None;
    }
    // digits before the point
    let mut whole: u64 = 0;
    let mut i: usize = 0;
    while i < dot
        invariant
            dot <= MAX_INT_DIGITS,
            dot <= len == s@.len(),
            dot == find_from(s@, 0x2E, 0),
            i <= dot,
            int_part == s@.subrange(0, dot as int),
            all_digits(int_part.subrange(0, i as int)),
            whole == digits_value(int_part.subrange(0, i as int)),
            whole < pow10(i as nat),
        decreases dot - i,
    {
        let b = s[i];
        assert(int_part[i as int] == b);
        if b < 0x30 || b > 0x39 {
            assert(!is_digit(int_part[i as int]));
            return None;
        }
        assert(int_part.subrange(0, i + 1).drop_last() =~= int_part.subrange(0, i as int));
        assert(all_digits(int_part.subrange(0, i + 1))) by {
            assert forall|j: int| 0 <= j < i + 1 implies is_digit(
                #[trigger] int_part.subrange(0, i + 1)[j],
            ) by {
                if j < i {
                    assert(int_part.subrange(0, i + 1)[j] == int_part.subrange(0, i as int)[j]);
                }
            }
        }
        proof {
            lemma_pow10_mono(i as nat, 8);
            reveal_with_fuel(pow10, 10);
        }
        whole = whole * 10 + (b - 0x30) as u64;
        i = i + 1;
    }
    assert(int_part.subrange(0, i as int) =~= int_part);
    proof {
        lemma_pow10_mono(dot as nat, 9);
        reveal_with_fuel(pow10, 10);
    }
    // digits after the point: all must be digits; the first three count
    let mut milli: u64 = 0;
    let mut j: usize = 0;
    let frac_len: usize = if dot < len { len - dot - 1 } else { 0 };
    assert(frac.len() == frac_len);
    let ghost f3 = first_three(frac);
    while j < frac_len
        invariant
            frac.len() == frac_len,
            dot < len ==> frac == s@.subrange(dot + 1, len as int),
            dot >= len ==> frac == Seq::<u8>::empty(),
            dot == find_from(s@, 0x2E, 0),
            dot <= len,
            frac_len > 0 ==> dot < len,
            len == s@.len(),
            j <= frac_len,
            f3 == first_three(frac),
            all_digits(frac.subrange(0, j as int)),
        decreases frac_len - j,
    {
        let b = s[dot + 1 + j];
        assert(frac[j as int] == b);
        if b < 0x30 || b > 0x39 {
            assert(!is_digit(frac[j as int]));
            return None;
        }
        assert(all_digits(frac.subrange(0, j + 1))) by {
            assert forall|m: int| 0 <= m < j + 1 implies is_digit(
                #[trigger] frac.subrange(0, j + 1)[m],
            ) by {
                if m < j {
                    assert(frac.subrange(0, j + 1)[m] == frac.subrange(0, j as int)[m]);
                }
            }
        }
        j = j + 1;
    }
    assert(frac.subrange(0, j as int) =~= frac);
    if dot + frac_len == 0 {
        return None;
    }
    let mut k: usize = 0;
    while k < 3
        invariant
            k <= 3,
            frac.len() == frac_len,
            all_digits(frac),
            dot < len ==> frac == s@.subrange(dot + 1, len as int),
            frac_len > 0 ==> dot < len,
            len == s@.len(),
            f3 == first_three(frac),
            milli == digits_value(f3.subrange(0, k as int)),
            milli < pow10(k as nat),
        decreases 3 - k,
    {
        let d: u64 = if k < frac_len {
            assert(f3[k as int] == frac[k as int]);
            assert(is_digit(frac[k as int]));
            (s[dot + 1 + k] - 0x30) as u64
        } else {
            assert(f3[k as int] == 0x30);
            0
        };
        assert(f3.subrange(0, k + 1).drop_last() =~= f3.subrange(0, k as int));
        proof {
            lemma_pow10_mono(k as nat, 2);
            reveal_with_fuel(pow10, 4);
        }
        milli = milli * 10 + d;
        k = k + 1;
    }
    assert(f3.subrange(0, 3) =~= f3);
    proof {
        reveal_with_fuel(pow10, 4);
    }
    Some(whole * 1000 + milli)
}

/// The reading of field `i` in thousandths; zero when missing or unparsable.
fn field_at(fields: &Vec<String>, i: usize) -> (r: u64)
    ensures
        r == field_value(field_texts(fields@), i as int),
        r < READING_BOUND,
{
    if i >= fields.len() {
        return 0;
    }
    let text: &str = fields[i].as_str();
    let bytes: &[u8] = text.as_bytes();
    assert(field_texts(fields@)[i as int] == fields@[i as int]@);
    match parse_milli(bytes) {
        Some(v) => v,
        None => 0,
    }
}

/// One device's photovoltaic power (the sum over the layout's inputs of
/// voltage times current) and load power, in millionths of a watt; both
/// zero when the reply has fewer fields than the layout needs.
pub fn device_power(fields: &Vec<String>, layout: &FieldLayout) -> (r: PowerSample)
    ensures
        r.pv_power == device_pv(field_texts(fields@), *layout),
        r.load_power == device_load(field_texts(fields@), *layout),
        r.pv_power < DEVICE_PV_BOUND,
        r.load_power < DEVICE_LOAD_BOUND,
        fields@.len() < layout.min_len() ==> r.pv_power == 0 && r.load_power == 0,
{
    proof {
        use_type_invariant(layout);
    }
    if fields.len() < layout.min_fields {
        return PowerSample { pv_power: 0, load_power: 0 };
    }
    let ghost texts = field_texts(fields@);
    let chans = &layout.pv_channels;
    let mut pv: u128 = 0;
    let mut i: usize = 0;
    while i < chans.len()
        invariant
            chans@ == layout.channels(),
            chans@.len() <= MAX_PV_CHANNELS,
            texts == field_texts(fields@),
            i <= chans@.len(),
            pv == pv_sum(texts, chans@.subrange(0, i as int)),
            pv <= i * 999_999_999_999_999_999_999_999,
        decreases chans.len() - i,
    {
        let c = chans[i];
        let v = field_at(fields, c.voltage);
        let a = field_at(fields, c.current);
        assert((v as int) * (a as int) < 1_000_000_000_000_000_000_000_000) by (nonlinear_arith)
            requires
                v < 1_000_000_000_000u64,
                a < 1_000_000_000_000u64,
        ;
        let prod: u128 = (v as u128) * (a as u128);
        assert(chans@.subrange(0, i + 1).drop_last() =~= chans@.subrange(0, i as int));
        assert(chans@.subrange(0, i + 1).last() == c);
        pv = pv + prod;
        i = i + 1;
    }
    assert(chans@.subrange(0, i as int) =~= chans@);
    let load: u128 = (field_at(fields, layout.load_power) as u128) * 1000;
    PowerSample { pv_power: pv, load_power: load }
}

/// A reply with fewer fields than the layout needs adds nothing to either
/// total.
pub proof fn lemma_short_reply_contributes_nothing(fields: Seq<Seq<char>>, layout: FieldLayout)
    requires
        fields.len() < layout.min_len(),
    ensures
        device_pv(fields, layout) == 0,
        device_load(fields, layout) == 0,
{
}

} // verus!
