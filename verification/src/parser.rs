use vstd::prelude::*;
use vstd::slice::slice_subrange;

use crate::reading::Reading;

verus! {

/// The field separator inside a frame: `;`.
pub const FIELD_SEP: u8 = 59;

/// The label/value separator inside a field: `:`.
pub const LABEL_SEP: u8 = 58;

/// A frame must be strictly longer than this many bytes to be considered.
pub const MIN_FRAME_LEN: usize = 10;

/// Splitting a byte sequence on a single separator byte, in the manner of
/// `str::split`: the result always has one part more than there are
/// separators, and empty parts are kept.
pub open spec fn split_on(s: Seq<u8>, sep: u8) -> Seq<Seq<u8>>
    decreases s.len(),
{
    if s.len() == 0 {
        seq![Seq::<u8>::empty()]
    } else if s[0] == sep {
        seq![Seq::<u8>::empty()] + split_on(s.skip(1), sep)
    } else {
        let rest = split_on(s.skip(1), sep);
        seq![seq![s[0]] + rest[0]] + rest.skip(1)
    }
}

pub proof fn lemma_split_on_nonempty(s: Seq<u8>, sep: u8)
    ensures
        split_on(s, sep).len() >= 1,
    decreases s.len(),
{
    if s.len() == 0 {
    } else if s[0] == sep {
        lemma_split_on_nonempty(s.skip(1), sep);
    } else {
        lemma_split_on_nonempty(s.skip(1), sep);
    }
}

/// Splitting a sequence that holds no separator yields just that sequence.
pub proof fn lemma_split_on_no_sep(s: Seq<u8>, sep: u8)
    requires
        forall|i: int| 0 <= i < s.len() ==> s[i] != sep,
    ensures
        split_on(s, sep) == seq![s],
    decreases s.len(),
{
    if s.len() == 0 {
        assert(s =~= Seq::<u8>::empty());
        assert(split_on(s, sep) =~= seq![s]);
    } else {
        lemma_split_on_no_sep(s.skip(1), sep);
        let rest = split_on(s.skip(1), sep);
        assert(rest[0] == s.skip(1));
        assert(seq![s[0]] + s.skip(1) =~= s);
        assert(rest.skip(1) =~= Seq::<Seq<u8>>::empty());
        assert(split_on(s, sep) =~= seq![s]);
    }
}

/// Splitting around one separator: if the part before it holds no separator,
/// it becomes the first piece and the rest splits independently.
pub proof fn lemma_split_on_concat(a: Seq<u8>, b: Seq<u8>, sep: u8)
    requires
        forall|i: int| 0 <= i < a.len() ==> a[i] != sep,
    ensures
        split_on(a + seq![sep] + b, sep) == seq![a] + split_on(b, sep),
    decreases a.len(),
{
    let s = a + seq![sep] + b;
    if a.len() == 0 {
        assert(s[0] == sep);
        assert(s.skip(1) =~= b);
        assert(a =~= Seq::<u8>::empty());
        assert(split_on(s, sep) =~= seq![a] + split_on(b, sep));
    } else {
        assert(s[0] == a[0]);
        assert(s[0] != sep);
        assert(s.skip(1) =~= a.skip(1) + seq![sep] + b);
        lemma_split_on_concat(a.skip(1), b, sep);
        let rest = split_on(s.skip(1), sep);
        lemma_split_on_nonempty(b, sep);
        assert(rest[0] == a.skip(1));
        assert(seq![s[0]] + rest[0] =~= a);
        assert(rest.skip(1) =~= split_on(b, sep));
        assert(split_on(s, sep) =~= seq![a] + split_on(b, sep));
    }
}

/// Splits a byte slice on a separator byte, as `str::split` would.
pub fn split_bytes(s: &[u8], sep: u8) -> (r: Vec<Vec<u8>>)
    ensures
        r@.map_values(|v: Vec<u8>| v@) == split_on(s@, sep),
        r@.len() >= 1,
    decreases s@.len(),
{
    if s.len() == 0 {
        let mut r: Vec<Vec<u8>> = Vec::new();
        r.push(Vec::new());
        proof {
            assert(r@.map_values(|v: Vec<u8>| v@) =~= split_on(s@, sep));
        }
        r
    } else if s[0] == sep {
        let tail = slice_subrange(s, 1, s.len());
        proof {
            assert(tail@ =~= s@.skip(1));
        }
        let mut r = split_bytes(tail, sep);
        r.insert(0, Vec::new());
        proof {
            assert(r@.map_values(|v: Vec<u8>| v@) =~= split_on(s@, sep));
        }
        r
    } else {
        let tail = slice_subrange(s, 1, s.len());
        proof {
            assert(tail@ =~= s@.skip(1));
        }
        let mut r = split_bytes(tail, sep);
        let ghost old_r = r@;
        let mut first = r.remove(0);
        first.insert(0, s[0]);
        let ghost first1 = first@;
        r.insert(0, first);
        proof {
            let f = |v: Vec<u8>| v@;
            let rest = split_on(s@.skip(1), sep);
            assert(old_r.map_values(f) == rest);
            assert(old_r.map_values(f)[0] == old_r[0]@);
            assert(first1 =~= seq![s@[0]] + rest[0]);
            let m = r@.map_values(f);
            let target = seq![seq![s@[0]] + rest[0]] + rest.skip(1);
            assert(m.len() == target.len());
            assert forall|k: int| 0 <= k < m.len() implies m[k] == target[k] by {
                if k == 0 {
                    assert(r@[0] == first);
                    assert(m[0] == first1);
                } else {
                    assert(r@[k] == old_r[k]);
                    assert(m[k] == old_r[k]@);
                    assert(old_r.map_values(f)[k] == old_r[k]@);
                    assert(target[k] == rest[k]);
                }
            }
            assert(m =~= target);
        }
        r
    }
}

/// A decimal digit byte.
pub open spec fn is_digit(b: u8) -> bool {
    48 <= b && b <= 57
}

pub open spec fn all_digits(s: Seq<u8>) -> bool {
    forall|i: int| 0 <= i < s.len() ==> is_digit(s[i])
}

/// The numeric value of a string of decimal digits.
pub open spec fn digits_val(s: Seq<u8>) -> int
    decreases s.len(),
{
    if s.len() == 0 {
        0
    } else {
        digits_val(s.drop_last()) * 10 + (s.last() - 48)
    }
}

/// The magnitude part of integer parsing: every byte must be a digit and
/// there must be at least one.
pub open spec fn parse_magnitude(digits: Seq<u8>) -> Option<int> {
    if digits.len() == 0 || !all_digits(digits) {
        None
    } else {
        Some(digits_val(digits))
    }
}

/// Parsing a decimal integer as `i32::from_str` does: an optional single
/// leading `+` or `-`, then one or more digits, rejected on overflow.
pub open spec fn parse_i32_spec(s: Seq<u8>) -> Option<i32> {
    if s.len() > 0 && s[0] == 45 {
        match parse_magnitude(s.skip(1)) {
            Some(v) => if v <= 0x8000_0000 { Some((0 - v) as i32) } else { None },
            None => None,
        }
    } else if s.len() > 0 && s[0] == 43 {
        match parse_magnitude(s.skip(1)) {
            Some(v) => if v <= 0x7fff_ffff { Some(v as i32) } else { None },
            None => None,
        }
    } else {
        match parse_magnitude(s) {
            Some(v) => if v <= 0x7fff_ffff { Some(v as i32) } else { None },
            None => None,
        }
    }
}

/// Parses a decimal integer from bytes, with the exact acceptance and
/// overflow behaviour of `i32::from_str`.
pub fn parse_i32(s: &[u8]) -> (r: Option<i32>)
    ensures
        r == parse_i32_spec(s@),
{
    let mut neg = false;
    let mut start: usize = 0;
    if s.len() > 0 && s[0] == 45 {
        neg = true;
        start = 1;
    } else if s.len() > 0 && s[0] == 43 {
        start = 1;
    }
    let ghost digits = if start == 1 { s@.skip(1) } else { s@ };
    if s.len() == start {
        assert(digits.len() == 0);
        return None;
    }
    let mut acc: u64 = 0;
    let mut i: usize = start;
    while i < s.len()
        invariant
            start <= i <= s@.len(),
            start <= 1,
            neg ==> start == 1 && s@.len() > 0 && s@[0] == 45,
            !neg && start == 1 ==> s@.len() > 0 && s@[0] == 43,
            start == 0 ==> !(s@.len() > 0 && (s@[0] == 45 || s@[0] == 43)),
            digits == (if start == 1 { s@.skip(1) } else { s@ }),
            all_digits(digits.take(i - start)),
            digits_val(digits.take(i - start)) <= 0x1_0000_0000 ==> acc == digits_val(
                digits.take(i - start),
            ),
            digits_val(digits.take(i - start)) > 0x1_0000_0000 ==> acc > 0x1_0000_0000,
            acc <= 0xa_0000_0009,
        decreases s@.len() - i,
    {
        let c = s[i];
        proof {
            assert(digits[i - start] == s@[i as int]);
        }
        if c < 48 || c > 57 {
            proof {
                assert(!is_digit(digits[i - start]));
                assert(!all_digits(digits));
            }
            return None;
        }
        proof {
            let pre = digits.take(i - start);
            let post = digits.take(i + 1 - start);
            assert(post.drop_last() =~= pre);
            assert(post.last() == digits[i - start]);
            assert(digits_val(post) == digits_val(pre) * 10 + (c - 48));
        }
        if acc <= 0x1_0000_0000 {
            acc = acc * 10 + ((c - 48) as u64);
        }
        i = i + 1;
    }
    proof {
        assert(digits.take(s@.len() - start) =~= digits);
    }
    if neg {
        if acc <= 0x8000_0000 {
            proof {
                assert(digits_val(digits) == acc);
            }
            let v = if acc == 0x8000_0000 {
                i32::MIN
            } else {
                0i32 - (acc as i32)
            };
            assert(v == parse_i32_spec(s@).unwrap());
            Some(v)
        } else {
            None
        }
    } else {
        if acc <= 0x7fff_ffff {
            proof {
                assert(digits_val(digits) == acc);
            }
            Some(acc as i32)
        } else {
            None
        }
    }
}

/// The value a field contributes: the text between the first `:` and the
/// next `:` (or the field's end), parsed as an integer.
pub open spec fn field_value(f: Seq<u8>) -> Option<i32> {
    let parts = split_on(f, LABEL_SEP);
    if parts.len() >= 2 {
        parse_i32_spec(parts[1])
    } else {
        None
    }
}

/// Extracts a field's integer value, or nothing if the field has no `:` or
/// the value text is not an integer.
pub fn parse_field(f: &Vec<u8>) -> (r: Option<i32>)
    ensures
        r == field_value(f@),
{
    let parts = split_bytes(f.as_slice(), LABEL_SEP);
    if parts.len() >= 2 {
        proof {
            assert(parts@.map_values(|v: Vec<u8>| v@)[1] == parts@[1]@);
        }
        parse_i32(parts[1].as_slice())
    } else {
        None
    }
}

/// The readings one frame yields: nothing unless the frame is longer than
/// `MIN_FRAME_LEN` bytes and splits into exactly three `;`-separated fields;
/// otherwise up to one reading per field, in light, motion, sound order.
pub open spec fn frame_readings(f: Seq<u8>) -> Seq<Reading> {
    if f.len() <= MIN_FRAME_LEN {
        Seq::<Reading>::empty()
    } else {
        let fields = split_on(f, FIELD_SEP);
        if fields.len() != 3 {
            Seq::<Reading>::empty()
        } else {
            (match field_value(fields[0]) {
                Some(v) => seq![Reading::Light(v)],
                None => Seq::<Reading>::empty(),
            }) + (match field_value(fields[1]) {
                Some(v) => seq![Reading::Motion(v)],
                None => Seq::<Reading>::empty(),
            }) + (match field_value(fields[2]) {
                Some(v) => seq![Reading::Sound(v)],
                None => Seq::<Reading>::empty(),
            })
        }
    }
}

/// Turns one frame into its readings: the Line Parser. Malformed frames and
/// malformed fields yield nothing and no error.
pub fn parse_frame(frame: &[u8]) -> (r: Vec<Reading>)
    ensures
        r@ == frame_readings(frame@),
{
    let mut out: Vec<Reading> = Vec::new();
    if frame.len() <= MIN_FRAME_LEN {
        return out;
    }
    let fields = split_bytes(frame, FIELD_SEP);
    if fields.len() != 3 {
        return out;
    }
    proof {
        let m = fields@.map_values(|v: Vec<u8>| v@);
        assert(m[0] == fields@[0]@);
        assert(m[1] == fields@[1]@);
        assert(m[2] == fields@[2]@);
    }
    if let Some(v) = parse_field(&fields[0]) {
        out.push(Reading::Light(v));
    }
    if let Some(v) = parse_field(&fields[1]) {
        out.push(Reading::Motion(v));
    }
    if let Some(v) = parse_field(&fields[2]) {
        out.push(Reading::Sound(v));
    }
    proof {
        assert(out@ =~= frame_readings(frame@));
    }
    out
}

/// A well-shaped frame `<a>;<b>;<c>` longer than `MIN_FRAME_LEN`, whose first
/// two fields hold no `;`, yields exactly the readings of its three fields,
/// in light, motion, sound order.
pub proof fn lemma_frame_three_fields(f0: Seq<u8>, f1: Seq<u8>, f2: Seq<u8>)
    requires
        forall|i: int| 0 <= i < f0.len() ==> f0[i] != FIELD_SEP,
        forall|i: int| 0 <= i < f1.len() ==> f1[i] != FIELD_SEP,
        forall|i: int| 0 <= i < f2.len() ==> f2[i] != FIELD_SEP,
        f0.len() + f1.len() + f2.len() + 2 > MIN_FRAME_LEN,
    ensures
        frame_readings(f0 + seq![FIELD_SEP] + f1 + seq![FIELD_SEP] + f2) == (match field_value(
            f0,
        ) {
            Some(v) => seq![Reading::Light(v)],
            None => Seq::<Reading>::empty(),
        }) + (match field_value(f1) {
            Some(v) => seq![Reading::Motion(v)],
            None => Seq::<Reading>::empty(),
        }) + (match field_value(f2) {
            Some(v) => seq![Reading::Sound(v)],
            None => Seq::<Reading>::empty(),
        }),
{
    let f = f0 + seq![FIELD_SEP] + f1 + seq![FIELD_SEP] + f2;
    assert(f.len() == f0.len() + f1.len() + f2.len() + 2);
    assert(f =~= f0 + seq![FIELD_SEP] + (f1 + seq![FIELD_SEP] + f2));
    lemma_split_on_concat(f0, f1 + seq![FIELD_SEP] + f2, FIELD_SEP);
    lemma_split_on_concat(f1, f2, FIELD_SEP);
    lemma_split_on_no_sep(f2, FIELD_SEP);
    let fields = split_on(f, FIELD_SEP);
    assert(fields =~= seq![f0, f1, f2]);
}

/// The canonical well-formed frame `light:<L>;motion:<M>;sound:<S>` with the
/// three values rendered in decimal.
pub open spec fn canonical_frame(l: i32, m: i32, s: i32) -> Seq<u8> {
    (seq![108u8, 105u8, 103u8, 104u8, 116u8, 58u8] + crate::publish::dec_signed(l as int)) + seq![
        59u8,
    ] + (seq![109u8, 111u8, 116u8, 105u8, 111u8, 110u8, 58u8] + crate::publish::dec_signed(
        m as int,
    )) + seq![59u8] + (seq![115u8, 111u8, 117u8, 110u8, 100u8, 58u8] + crate::publish::dec_signed(
        s as int,
    ))
}

/// A field `<label>:<value>` whose label holds no `:` and whose value is the
/// decimal rendering of `v` yields exactly `v`.
pub proof fn lemma_field_roundtrip(label: Seq<u8>, v: i32)
    requires
        forall|i: int| 0 <= i < label.len() ==> label[i] != LABEL_SEP,
    ensures
        field_value(label + seq![LABEL_SEP] + crate::publish::dec_signed(v as int)) == Some(v),
{
    let dec = crate::publish::dec_signed(v as int);
    crate::publish::lemma_parse_dec_signed(v);
    assert(forall|i: int| 0 <= i < dec.len() ==> dec[i] != LABEL_SEP);
    lemma_split_on_concat(label, dec, LABEL_SEP);
    lemma_split_on_no_sep(dec, LABEL_SEP);
    let parts = split_on(label + seq![LABEL_SEP] + dec, LABEL_SEP);
    assert(parts == seq![label] + seq![dec]);
    assert(parts.len() == 2);
    assert(parts[1] == dec);
}

/// Every valid frame `light:L;motion:M;sound:S` yields exactly the readings
/// Light(L), Motion(M), Sound(S), in that order, for all `i32` values.
pub proof fn lemma_valid_frame_parses(l: i32, m: i32, s: i32)
    ensures
        frame_readings(canonical_frame(l, m, s)) == seq![
            Reading::Light(l),
            Reading::Motion(m),
            Reading::Sound(s),
        ],
{
    let dl = crate::publish::dec_signed(l as int);
    let dm = crate::publish::dec_signed(m as int);
    let ds = crate::publish::dec_signed(s as int);
    crate::publish::lemma_parse_dec_signed(l);
    crate::publish::lemma_parse_dec_signed(m);
    crate::publish::lemma_parse_dec_signed(s);
    let f0 = seq![108u8, 105u8, 103u8, 104u8, 116u8, 58u8] + dl;
    let f1 = seq![109u8, 111u8, 116u8, 105u8, 111u8, 110u8, 58u8] + dm;
    let f2 = seq![115u8, 111u8, 117u8, 110u8, 100u8, 58u8] + ds;
    assert(forall|i: int| 0 <= i < f0.len() ==> f0[i] != FIELD_SEP);
    assert(forall|i: int| 0 <= i < f1.len() ==> f1[i] != FIELD_SEP);
    assert(forall|i: int| 0 <= i < f2.len() ==> f2[i] != FIELD_SEP);
    crate::publish::lemma_dec_digits_value(if l >= 0 {
        l as int
    } else {
        -(l as int)
    });
    assert(dl.len() >= 1);
    assert(f0.len() + f1.len() + f2.len() + 2 > MIN_FRAME_LEN);
    lemma_frame_three_fields(f0, f1, f2);
    lemma_field_roundtrip(seq![108u8, 105u8, 103u8, 104u8, 116u8], l);
    assert(seq![108u8, 105u8, 103u8, 104u8, 116u8] + seq![LABEL_SEP] + dl =~= f0);
    lemma_field_roundtrip(seq![109u8, 111u8, 116u8, 105u8, 111u8, 110u8], m);
    assert(seq![109u8, 111u8, 116u8, 105u8, 111u8, 110u8] + seq![LABEL_SEP] + dm =~= f1);
    lemma_field_roundtrip(seq![115u8, 111u8, 117u8, 110u8, 100u8], s);
    assert(seq![115u8, 111u8, 117u8, 110u8, 100u8] + seq![LABEL_SEP] + ds =~= f2);
    assert(field_value(f0) == Some(l));
    assert(field_value(f1) == Some(m));
    assert(field_value(f2) == Some(s));
    assert(canonical_frame(l, m, s) =~= f0 + seq![FIELD_SEP] + f1 + seq![FIELD_SEP] + f2);
    assert(frame_readings(canonical_frame(l, m, s)) =~= seq![
        Reading::Light(l),
        Reading::Motion(m),
        Reading::Sound(s),
    ]);
}

/// A frame of at most `MIN_FRAME_LEN` bytes, or one that does not split into
/// exactly three `;`-separated fields, yields no readings.
pub proof fn lemma_malformed_frame_yields_nothing(f: Seq<u8>)
    requires
        f.len() <= MIN_FRAME_LEN || split_on(f, FIELD_SEP).len() != 3,
    ensures
        frame_readings(f) == Seq::<Reading>::empty(),
{
}

} // verus!
