use vstd::prelude::*;

use crate::reading::{Summary, Timestamp};

verus! {

/// The decimal digits of a non-negative number, most significant first.
pub open spec fn dec_digits(n: int) -> Seq<u8>
    recommends
        n >= 0,
    decreases n,
{
    if n <= 9 {
        seq![(48 + n) as u8]
    } else {
        dec_digits(n / 10).push((48 + n % 10) as u8)
    }
}

/// The decimal rendering of an integer: a leading `-` for negatives.
pub open spec fn dec_signed(n: int) -> Seq<u8> {
    if n < 0 {
        seq![45u8] + dec_digits(-n)
    } else {
        dec_digits(n)
    }
}

/// Decimal renderings are digit strings that evaluate back to the number
/// they render.
pub proof fn lemma_dec_digits_value(n: int)
    requires
        n >= 0,
    ensures
        dec_digits(n).len() >= 1,
        forall|i: int| 0 <= i < dec_digits(n).len() ==> 48 <= #[trigger] dec_digits(n)[i] <= 57,
        crate::parser::digits_val(dec_digits(n)) == n,
    decreases n,
{
    if n <= 9 {
        let d = dec_digits(n);
        assert(d == seq![(48 + n) as u8]);
        assert(d.len() == 1);
        assert(0 <= 48 + n <= 57);
        assert(((48 + n) as u8) as int == 48 + n);
        assert(d.drop_last() =~= Seq::<u8>::empty());
        assert(crate::parser::digits_val(d.drop_last()) == 0);
        assert(crate::parser::digits_val(d) == n);
    } else {
        lemma_dec_digits_value(n / 10);
        let d = dec_digits(n);
        let pre = dec_digits(n / 10);
        assert(d == pre.push((48 + n % 10) as u8));
        assert(d.drop_last() =~= pre);
        assert(d.last() == (48 + n % 10) as u8);
        assert(crate::parser::digits_val(d) == crate::parser::digits_val(pre) * 10 + (n % 10));
        assert(n / 10 * 10 + n % 10 == n) by {
            vstd::arithmetic::div_mod::lemma_fundamental_div_mod(n, 10);
        }
        assert forall|i: int| 0 <= i < d.len() implies 48 <= #[trigger] d[i] <= 57 by {
            if i < pre.len() {
                assert(d[i] == pre[i]);
            }
        }
    }
}

/// The signed rendering holds only digits and a possible leading minus, and
/// parses back to the number, for every value an `i32` can hold.
pub proof fn lemma_parse_dec_signed(v: i32)
    ensures
        crate::parser::parse_i32_spec(dec_signed(v as int)) == Some(v),
        forall|i: int| 0 <= i < dec_signed(v as int).len() ==> (48 <= #[trigger] dec_signed(
            v as int,
        )[i] <= 57 || dec_signed(v as int)[i] == 45),
{
    let s = dec_signed(v as int);
    if v < 0 {
        lemma_dec_digits_value(-(v as int));
        assert(s[0] == 45);
        assert(s.skip(1) =~= dec_digits(-(v as int)));
        assert(crate::parser::parse_magnitude(s.skip(1)) == Some(-(v as int)));
        assert(crate::parser::parse_i32_spec(s) == Some(v));
    } else {
        lemma_dec_digits_value(v as int);
        assert(48 <= s[0] <= 57);
        assert(crate::parser::parse_magnitude(s) == Some(v as int));
        assert(crate::parser::parse_i32_spec(s) == Some(v));
    }
}

/// Appends the decimal digits of `n` to `out`.
pub fn push_u64_dec(out: &mut Vec<u8>, n: u64)
    ensures
        final(out)@ == old(out)@ + dec_digits(n as int),
    decreases n,
{
    if n <= 9 {
        out.push(48 + (n as u8));
        proof {
            assert(out@ =~= old(out)@ + dec_digits(n as int));
        }
    } else {
        push_u64_dec(out, n / 10);
        out.push(48 + ((n % 10) as u8));
        proof {
            assert(out@ =~= old(out)@ + dec_digits(n as int));
        }
    }
}

/// Appends the decimal rendering of `n`, sign included, to `out`.
pub fn push_i64_dec(out: &mut Vec<u8>, n: i64)
    ensures
        final(out)@ == old(out)@ + dec_signed(n as int),
{
    if n < 0 {
        out.push(45);
        let wide: i128 = n as i128;
        let mag: u64 = (-wide) as u64;
        proof {
            assert(mag == -(n as int));
        }
        push_u64_dec(out, mag);
        proof {
            assert(out@ =~= old(out)@ + dec_signed(n as int));
        }
    } else {
        push_u64_dec(out, n as u64);
    }
}

/// The literal bytes of `http://www.yarenty.com/ardunio/add.php?year=` in the endpoint template.
pub open spec fn url_year_prefix() -> Seq<u8> {
    seq![104u8, 116u8, 116u8, 112u8, 58u8, 47u8, 47u8, 119u8, 119u8, 119u8, 46u8, 121u8, 97u8, 114u8, 101u8, 110u8, 116u8, 121u8, 46u8, 99u8, 111u8, 109u8, 47u8, 97u8, 114u8, 100u8, 117u8, 110u8, 105u8, 111u8, 47u8, 97u8, 100u8, 100u8, 46u8, 112u8, 104u8, 112u8, 63u8, 121u8, 101u8, 97u8, 114u8, 61u8]
}
/// The literal bytes of `&month=` in the endpoint template.
pub open spec fn url_month_sep() -> Seq<u8> {
    seq![38u8, 109u8, 111u8, 110u8, 116u8, 104u8, 61u8]
}
/// The literal bytes of `&day=` in the endpoint template.
pub open spec fn url_day_sep() -> Seq<u8> {
    seq![38u8, 100u8, 97u8, 121u8, 61u8]
}
/// The literal bytes of `&hour=` in the endpoint template.
pub open spec fn url_hour_sep() -> Seq<u8> {
    seq![38u8, 104u8, 111u8, 117u8, 114u8, 61u8]
}
/// The literal bytes of `&minute=` in the endpoint template.
pub open spec fn url_minute_sep() -> Seq<u8> {
    seq![38u8, 109u8, 105u8, 110u8, 117u8, 116u8, 101u8, 61u8]
}
/// The literal bytes of `&light=` in the endpoint template.
pub open spec fn url_light_sep() -> Seq<u8> {
    seq![38u8, 108u8, 105u8, 103u8, 104u8, 116u8, 61u8]
}
/// The literal bytes of `&sound=` in the endpoint template.
pub open spec fn url_sound_sep() -> Seq<u8> {
    seq![38u8, 115u8, 111u8, 117u8, 110u8, 100u8, 61u8]
}
/// The literal bytes of `&motion=` in the endpoint template.
pub open spec fn url_motion_sep() -> Seq<u8> {
    seq![38u8, 109u8, 111u8, 116u8, 105u8, 111u8, 110u8, 61u8]
}
/// The exact bytes of the summary's outbound URL: the fixed endpoint
/// template with the timestamp's calendar fields and the three reduced
/// values as query parameters.
pub open spec fn summary_url_bytes(ts: Timestamp, light: int, sound: int, motion: int) -> Seq<
    u8,
> {
    url_year_prefix() + dec_signed(ts.year as int) + url_month_sep() + dec_digits(ts.month as int)
        + url_day_sep() + dec_digits(ts.day as int) + url_hour_sep() + dec_digits(ts.hour as int)
        + url_minute_sep() + dec_digits(ts.minute as int) + url_light_sep() + dec_signed(light)
        + url_sound_sep() + dec_signed(sound) + url_motion_sep() + dec_signed(motion)
}

/// Renders the URL a summary is published to, byte for byte.
#[verifier::rlimit(100)]
pub fn summary_url(s: &Summary) -> (r: Vec<u8>)
    ensures
        r@ == summary_url_bytes(s.timestamp, s.light as int, s.sound as int, s.motion as int),
{
    let ts = s.timestamp;
    let mut out: Vec<u8> = Vec::new();
    out.push(104);
    out.push(116);
    out.push(116);
    out.push(112);
    out.push(58);
    out.push(47);
    out.push(47);
    out.push(119);
    out.push(119);
    out.push(119);
    out.push(46);
    out.push(121);
    out.push(97);
    out.push(114);
    out.push(101);
    out.push(110);
    out.push(116);
    out.push(121);
    out.push(46);
    out.push(99);
    out.push(111);
    out.push(109);
    out.push(47);
    out.push(97);
    out.push(114);
    out.push(100);
    out.push(117);
    out.push(110);
    out.push(105);
    out.push(111);
    out.push(47);
    out.push(97);
    out.push(100);
    out.push(100);
    out.push(46);
    out.push(112);
    out.push(104);
    out.push(112);
    out.push(63);
    out.push(121);
    out.push(101);
    out.push(97);
    out.push(114);
    out.push(61);
    let ghost t1 = Seq::<u8>::empty() + url_year_prefix();
    proof {
        assert(out@ =~= t1);
    }
    push_i64_dec(&mut out, ts.year as i64);
    let ghost t2 = t1 + dec_signed(ts.year as int);
    proof {
        assert(out@ == t2);
    }
    out.push(38);
    out.push(109);
    out.push(111);
    out.push(110);
    out.push(116);
    out.push(104);
    out.push(61);
    let ghost t3 = t2 + url_month_sep();
    proof {
        assert(out@ =~= t3);
    }
    push_u64_dec(&mut out, ts.month as u64);
    let ghost t4 = t3 + dec_digits(ts.month as int);
    proof {
        assert(out@ == t4);
    }
    out.push(38);
    out.push(100);
    out.push(97);
    out.push(121);
    out.push(61);
    let ghost t5 = t4 + url_day_sep();
    proof {
        assert(out@ =~= t5);
    }
    push_u64_dec(&mut out, ts.day as u64);
    let ghost t6 = t5 + dec_digits(ts.day as int);
    proof {
        assert(out@ == t6);
    }
    out.push(38);
    out.push(104);
    out.push(111);
    out.push(117);
    out.push(114);
    out.push(61);
    let ghost t7 = t6 + url_hour_sep();
    proof {
        assert(out@ =~= t7);
    }
    push_u64_dec(&mut out, ts.hour as u64);
    let ghost t8 = t7 + dec_digits(ts.hour as int);
    proof {
        assert(out@ == t8);
    }
    out.push(38);
    out.push(109);
    out.push(105);
    out.push(110);
    out.push(117);
    out.push(116);
    out.push(101);
    out.push(61);
    let ghost t9 = t8 + url_minute_sep();
    proof {
        assert(out@ =~= t9);
    }
    push_u64_dec(&mut out, ts.minute as u64);
    let ghost t10 = t9 + dec_digits(ts.minute as int);
    proof {
        assert(out@ == t10);
    }
    out.push(38);
    out.push(108);
    out.push(105);
    out.push(103);
    out.push(104);
    out.push(116);
    out.push(61);
    let ghost t11 = t10 + url_light_sep();
    proof {
        assert(out@ =~= t11);
    }
    push_i64_dec(&mut out, s.light);
    let ghost t12 = t11 + dec_signed(s.light as int);
    proof {
        assert(out@ == t12);
    }
    out.push(38);
    out.push(115);
    out.push(111);
    out.push(117);
    out.push(110);
    out.push(100);
    out.push(61);
    let ghost t13 = t12 + url_sound_sep();
    proof {
        assert(out@ =~= t13);
    }
    push_i64_dec(&mut out, s.sound as i64);
    let ghost t14 = t13 + dec_signed(s.sound as int);
    proof {
        assert(out@ == t14);
    }
    out.push(38);
    out.push(109);
    out.push(111);
    out.push(116);
    out.push(105);
    out.push(111);
    out.push(110);
    out.push(61);
    let ghost t15 = t14 + url_motion_sep();
    proof {
        assert(out@ =~= t15);
    }
    push_i64_dec(&mut out, s.motion as i64);
    let ghost t16 = t15 + dec_signed(s.motion as int);
    proof {
        assert(out@ == t16);
    }
    proof {
        assert(Seq::<u8>::empty() + url_year_prefix() =~= url_year_prefix());
        assert(t16 == summary_url_bytes(s.timestamp, s.light as int, s.sound as int, s.motion as int));
    }
    out
}

} // verus!
