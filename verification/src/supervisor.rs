use vstd::prelude::*;
use vstd::slice::slice_subrange;

use crate::parser::{frame_readings, parse_frame};
use crate::reading::{Reading, Summary, Timestamp};
use crate::window::AggregationWindow;

verus! {

/// Carriage return, the first byte of the frame delimiter.
pub const CR: u8 = 13;

/// Line feed, the second byte of the frame delimiter.
pub const LF: u8 = 10;

/// A UTF-8 continuation byte.
pub open spec fn is_cont(b: u8) -> bool {
    0x80 <= b && b <= 0xbf
}

/// Whether a byte sequence is valid UTF-8, by the encoding's shortest-form
/// rules: no overlong sequences, no surrogates, nothing above U+10FFFF.
pub open spec fn is_utf8(s: Seq<u8>) -> bool
    decreases s.len(),
{
    if s.len() == 0 {
        true
    } else {
        let b0 = s[0];
        if b0 < 0x80 {
            is_utf8(s.skip(1))
        } else if 0xc2 <= b0 && b0 <= 0xdf {
            s.len() >= 2 && is_cont(s[1]) && is_utf8(s.skip(2))
        } else if b0 == 0xe0 {
            s.len() >= 3 && 0xa0 <= s[1] && s[1] <= 0xbf && is_cont(s[2]) && is_utf8(s.skip(3))
        } else if 0xe1 <= b0 && b0 <= 0xec {
            s.len() >= 3 && is_cont(s[1]) && is_cont(s[2]) && is_utf8(s.skip(3))
        } else if b0 == 0xed {
            s.len() >= 3 && 0x80 <= s[1] && s[1] <= 0x9f && is_cont(s[2]) && is_utf8(s.skip(3))
        } else if 0xee <= b0 && b0 <= 0xef {
            s.len() >= 3 && is_cont(s[1]) && is_cont(s[2]) && is_utf8(s.skip(3))
        } else if b0 == 0xf0 {
            s.len() >= 4 && 0x90 <= s[1] && s[1] <= 0xbf && is_cont(s[2]) && is_cont(s[3])
                && is_utf8(s.skip(4))
        } else if 0xf1 <= b0 && b0 <= 0xf3 {
            s.len() >= 4 && is_cont(s[1]) && is_cont(s[2]) && is_cont(s[3]) && is_utf8(s.skip(4))
        } else if b0 == 0xf4 {
            s.len() >= 4 && 0x80 <= s[1] && s[1] <= 0x8f && is_cont(s[2]) && is_cont(s[3])
                && is_utf8(s.skip(4))
        } else {
            false
        }
    }
}

/// Checks a byte slice for UTF-8 validity.
pub fn check_utf8(s: &[u8]) -> (r: bool)
    ensures
        r == is_utf8(s@),
    decreases s@.len(),
{
    if s.len() == 0 {
        return true;
    }
    let b0 = s[0];
    if b0 < 0x80 {
        let tail = slice_subrange(s, 1, s.len());
        proof {
            assert(tail@ =~= s@.skip(1));
        }
        check_utf8(tail)
    } else if 0xc2 <= b0 && b0 <= 0xdf {
        if s.len() >= 2 && 0x80 <= s[1] && s[1] <= 0xbf {
            let tail = slice_subrange(s, 2, s.len());
            proof {
                assert(tail@ =~= s@.skip(2));
            }
            check_utf8(tail)
        } else {
            false
        }
    } else if b0 == 0xe0 || (0xe1 <= b0 && b0 <= 0xec) || b0 == 0xed || (0xee <= b0 && b0
        <= 0xef) {
        let lo: u8 = if b0 == 0xe0 {
            0xa0
        } else if b0 == 0xed {
            0x80
        } else {
            0x80
        };
        let hi: u8 = if b0 == 0xe0 {
            0xbf
        } else if b0 == 0xed {
            0x9f
        } else {
            0xbf
        };
        if s.len() >= 3 && lo <= s[1] && s[1] <= hi && 0x80 <= s[2] && s[2] <= 0xbf {
            let tail = slice_subrange(s, 3, s.len());
            proof {
                assert(tail@ =~= s@.skip(3));
            }
            check_utf8(tail)
        } else {
            false
        }
    } else if b0 == 0xf0 || (0xf1 <= b0 && b0 <= 0xf3) || b0 == 0xf4 {
        let lo: u8 = if b0 == 0xf0 {
            0x90
        } else {
            0x80
        };
        let hi: u8 = if b0 == 0xf4 {
            0x8f
        } else {
            0xbf
        };
        if s.len() >= 4 && lo <= s[1] && s[1] <= hi && 0x80 <= s[2] && s[2] <= 0xbf && 0x80 <= s[3]
            && s[3] <= 0xbf {
            let tail = slice_subrange(s, 4, s.len());
            proof {
                assert(tail@ =~= s@.skip(4));
            }
            check_utf8(tail)
        } else {
            false
        }
    } else {
        false
    }
}

/// Splitting a byte sequence into frames on the two-byte `\r\n` delimiter,
/// in the manner of `str::split("\r\n")`: non-overlapping occurrences,
/// scanned left to right, empty frames kept.
pub open spec fn split_crlf(s: Seq<u8>) -> Seq<Seq<u8>>
    decreases s.len(),
{
    if s.len() == 0 {
        seq![Seq::<u8>::empty()]
    } else if s.len() >= 2 && s[0] == CR && s[1] == LF {
        seq![Seq::<u8>::empty()] + split_crlf(s.skip(2))
    } else {
        let rest = split_crlf(s.skip(1));
        seq![seq![s[0]] + rest[0]] + rest.skip(1)
    }
}

/// Splits a byte slice into frames on `\r\n`.
pub fn split_frames(s: &[u8]) -> (r: Vec<Vec<u8>>)
    ensures
        r@.map_values(|v: Vec<u8>| v@) == split_crlf(s@),
        r@.len() >= 1,
    decreases s@.len(),
{
    if s.len() == 0 {
        let mut r: Vec<Vec<u8>> = Vec::new();
        r.push(Vec::new());
        proof {
            assert(r@.map_values(|v: Vec<u8>| v@) =~= split_crlf(s@));
        }
        r
    } else if s.len() >= 2 && s[0] == CR && s[1] == LF {
        let tail = slice_subrange(s, 2, s.len());
        proof {
            assert(tail@ =~= s@.skip(2));
        }
        let mut r = split_frames(tail);
        r.insert(0, Vec::new());
        proof {
            assert(r@.map_values(|v: Vec<u8>| v@) =~= split_crlf(s@));
        }
        r
    } else {
        let tail = slice_subrange(s, 1, s.len());
        proof {
            assert(tail@ =~= s@.skip(1));
        }
        let mut r = split_frames(tail);
        let ghost old_r = r@;
        let mut first = r.remove(0);
        first.insert(0, s[0]);
        let ghost first1 = first@;
        r.insert(0, first);
        proof {
            let f = |v: Vec<u8>| v@;
            let rest = split_crlf(s@.skip(1));
            assert(old_r.map_values(f) == rest);
            assert(old_r.map_values(f)[0] == old_r[0]@);
            assert(first1 =~= seq![s@[0]] + rest[0]);
            let m = r@.map_values(f);
            let target = seq![seq![s@[0]] + rest[0]] + rest.skip(1);
            assert(m.len() == target.len());
            assert forall|k: int| 0 <= k < m.len() implies m[k] == target[k] by {
                if k == 0 {
                    assert(r@[0] == first);
                    assert(m[0] == first1);
                } else {
                    assert(r@[k] == old_r[k]);
                    assert(m[k] == old_r[k]@);
                    assert(old_r.map_values(f)[k] == old_r[k]@);
                    assert(target[k] == rest[k]);
                }
            }
            assert(m =~= target);
        }
        r
    }
}

/// The light values among a run of readings, in order.
pub open spec fn lights_of(rs: Seq<Reading>) -> Seq<i32>
    decreases rs.len(),
{
    if rs.len() == 0 {
        Seq::<i32>::empty()
    } else {
        let rest = lights_of(rs.skip(1));
        match rs[0] {
            Reading::Light(v) => seq![v] + rest,
            _ => rest,
        }
    }
}

/// The sound values among a run of readings, in order.
pub open spec fn sounds_of(rs: Seq<Reading>) -> Seq<i32>
    decreases rs.len(),
{
    if rs.len() == 0 {
        Seq::<i32>::empty()
    } else {
        let rest = sounds_of(rs.skip(1));
        match rs[0] {
            Reading::Sound(v) => seq![v] + rest,
            _ => rest,
        }
    }
}

/// The motion values among a run of readings, in order.
pub open spec fn motions_of(rs: Seq<Reading>) -> Seq<i32>
    decreases rs.len(),
{
    if rs.len() == 0 {
        Seq::<i32>::empty()
    } else {
        let rest = motions_of(rs.skip(1));
        match rs[0] {
            Reading::Motion(v) => seq![v] + rest,
            _ => rest,
        }
    }
}

pub proof fn lemma_lights_of_push(rs: Seq<Reading>, r: Reading)
    ensures
        lights_of(rs.push(r)) == lights_of(rs) + (match r {
            Reading::Light(v) => seq![v],
            _ => Seq::<i32>::empty(),
        }),
    decreases rs.len(),
{
    let tail = (match r {
        Reading::Light(v) => seq![v],
        _ => Seq::<i32>::empty(),
    });
    if rs.len() == 0 {
        assert(rs.push(r).skip(1) =~= Seq::<Reading>::empty());
        assert(rs.push(r)[0] == r);
        assert(rs =~= Seq::<Reading>::empty());
        assert(lights_of(Seq::<Reading>::empty()) == Seq::<i32>::empty());
        match r {
            Reading::Light(v) => {
                assert(lights_of(rs.push(r)) == seq![v] + Seq::<i32>::empty());
            },
            _ => {
                assert(lights_of(rs.push(r)) == Seq::<i32>::empty());
            },
        }
        assert(lights_of(rs.push(r)) =~= lights_of(rs) + tail);
    } else {
        assert(rs.push(r).skip(1) =~= rs.skip(1).push(r));
        lemma_lights_of_push(rs.skip(1), r);
        assert(rs.push(r)[0] == rs[0]);
        match rs[0] {
            Reading::Light(v) => {
                assert(lights_of(rs.push(r)) == seq![v] + lights_of(rs.skip(1).push(r)));
                assert(lights_of(rs) == seq![v] + lights_of(rs.skip(1)));
                assert(seq![v] + (lights_of(rs.skip(1)) + tail) =~= (seq![v] + lights_of(rs.skip(1)))
                    + tail);
            },
            _ => {
                assert(lights_of(rs.push(r)) == lights_of(rs.skip(1).push(r)));
                assert(lights_of(rs) == lights_of(rs.skip(1)));
            },
        }
        assert(lights_of(rs.push(r)) =~= lights_of(rs) + tail);
    }
}

pub proof fn lemma_sounds_of_push(rs: Seq<Reading>, r: Reading)
    ensures
        sounds_of(rs.push(r)) == sounds_of(rs) + (match r {
            Reading::Sound(v) => seq![v],
            _ => Seq::<i32>::empty(),
        }),
    decreases rs.len(),
{
    let tail = (match r {
        Reading::Sound(v) => seq![v],
        _ => Seq::<i32>::empty(),
    });
    if rs.len() == 0 {
        assert(rs.push(r).skip(1) =~= Seq::<Reading>::empty());
        assert(rs.push(r)[0] == r);
        assert(rs =~= Seq::<Reading>::empty());
        assert(sounds_of(Seq::<Reading>::empty()) == Seq::<i32>::empty());
        match r {
            Reading::Sound(v) => {
                assert(sounds_of(rs.push(r)) == seq![v] + Seq::<i32>::empty());
            },
            _ => {
                assert(sounds_of(rs.push(r)) == Seq::<i32>::empty());
            },
        }
        assert(sounds_of(rs.push(r)) =~= sounds_of(rs) + tail);
    } else {
        assert(rs.push(r).skip(1) =~= rs.skip(1).push(r));
        lemma_sounds_of_push(rs.skip(1), r);
        assert(rs.push(r)[0] == rs[0]);
        match rs[0] {
            Reading::Sound(v) => {
                assert(sounds_of(rs.push(r)) == seq![v] + sounds_of(rs.skip(1).push(r)));
                assert(sounds_of(rs) == seq![v] + sounds_of(rs.skip(1)));
                assert(seq![v] + (sounds_of(rs.skip(1)) + tail) =~= (seq![v] + sounds_of(rs.skip(1)))
                    + tail);
            },
            _ => {
                assert(sounds_of(rs.push(r)) == sounds_of(rs.skip(1).push(r)));
                assert(sounds_of(rs) == sounds_of(rs.skip(1)));
            },
        }
        assert(sounds_of(rs.push(r)) =~= sounds_of(rs) + tail);
    }
}

pub proof fn lemma_motions_of_push(rs: Seq<Reading>, r: Reading)
    ensures
        motions_of(rs.push(r)) == motions_of(rs) + (match r {
            Reading::Motion(v) => seq![v],
            _ => Seq::<i32>::empty(),
        }),
    decreases rs.len(),
{
    let tail = (match r {
        Reading::Motion(v) => seq![v],
        _ => Seq::<i32>::empty(),
    });
    if rs.len() == 0 {
        assert(rs.push(r).skip(1) =~= Seq::<Reading>::empty());
        assert(rs.push(r)[0] == r);
        assert(rs =~= Seq::<Reading>::empty());
        assert(motions_of(Seq::<Reading>::empty()) == Seq::<i32>::empty());
        match r {
            Reading::Motion(v) => {
                assert(motions_of(rs.push(r)) == seq![v] + Seq::<i32>::empty());
            },
            _ => {
                assert(motions_of(rs.push(r)) == Seq::<i32>::empty());
            },
        }
        assert(motions_of(rs.push(r)) =~= motions_of(rs) + tail);
    } else {
        assert(rs.push(r).skip(1) =~= rs.skip(1).push(r));
        lemma_motions_of_push(rs.skip(1), r);
        assert(rs.push(r)[0] == rs[0]);
        match rs[0] {
            Reading::Motion(v) => {
                assert(motions_of(rs.push(r)) == seq![v] + motions_of(rs.skip(1).push(r)));
                assert(motions_of(rs) == seq![v] + motions_of(rs.skip(1)));
                assert(seq![v] + (motions_of(rs.skip(1)) + tail) =~= (seq![v] + motions_of(rs.skip(1)))
                    + tail);
            },
            _ => {
                assert(motions_of(rs.push(r)) == motions_of(rs.skip(1).push(r)));
                assert(motions_of(rs) == motions_of(rs.skip(1)));
            },
        }
        assert(motions_of(rs.push(r)) =~= motions_of(rs) + tail);
    }
}

/// The readings a run of frames yields, frame by frame.
pub open spec fn frames_readings(frames: Seq<Seq<u8>>) -> Seq<Reading>
    decreases frames.len(),
{
    if frames.len() == 0 {
        Seq::<Reading>::empty()
    } else {
        frame_readings(frames[0]) + frames_readings(frames.skip(1))
    }
}

pub proof fn lemma_frames_readings_push(frames: Seq<Seq<u8>>, f: Seq<u8>)
    ensures
        frames_readings(frames.push(f)) == frames_readings(frames) + frame_readings(f),
    decreases frames.len(),
{
    if frames.len() == 0 {
        assert(frames.push(f).skip(1) =~= Seq::<Seq<u8>>::empty());
        assert(frames.push(f)[0] == f);
        assert(frames =~= Seq::<Seq<u8>>::empty());
        assert(frames_readings(Seq::<Seq<u8>>::empty()) == Seq::<Reading>::empty());
        assert(frames_readings(frames.push(f)) == frame_readings(f) + Seq::<Reading>::empty());
        assert(frames_readings(frames.push(f)) =~= frames_readings(frames) + frame_readings(f));
    } else {
        assert(frames.push(f).skip(1) =~= frames.skip(1).push(f));
        lemma_frames_readings_push(frames.skip(1), f);
        assert(frames.push(f)[0] == frames[0]);
        assert(frames_readings(frames.push(f)) == frame_readings(frames[0]) + frames_readings(
            frames.skip(1).push(f),
        ));
        assert(frames_readings(frames) == frame_readings(frames[0]) + frames_readings(
            frames.skip(1),
        ));
        assert(frame_readings(frames[0]) + (frames_readings(frames.skip(1)) + frame_readings(f))
            =~= (frame_readings(frames[0]) + frames_readings(frames.skip(1))) + frame_readings(f));
        assert(frames_readings(frames.push(f)) =~= frames_readings(frames) + frame_readings(f));
    }
}

/// All the readings one received chunk of bytes yields, after framing.
pub open spec fn chunk_readings(bytes: Seq<u8>) -> Seq<Reading> {
    frames_readings(split_crlf(bytes))
}

/// What one read of the device produced: bytes, a benign timeout, or a
/// connection fault.
pub enum ReadEvent {
    Data(Vec<u8>),
    Timeout,
    Failed,
}

/// What the caller must do after feeding an event to the supervisor.
#[derive(Debug, Clone, Copy, PartialEq, Eq, Structural)]
pub enum Directive {
    /// Nothing special: keep reading.
    Continue,
    /// The connection is lost: re-discover and reopen the device, keeping
    /// the supervisor (and its window) as it is.
    Reconnect,
    /// The bytes were not valid UTF-8: a fatal decoding error.
    Fatal,
}

/// The window's mathematical model: the three value sequences and the
/// minute marker.
#[verifier::ext_equal]
pub struct WindowModel {
    pub light: Seq<i32>,
    pub sound: Seq<i32>,
    pub motion: Seq<i32>,
    pub minute: u32,
}

impl View for AggregationWindow {
    type V = WindowModel;

    open spec fn view(&self) -> WindowModel {
        WindowModel {
            light: self.light@,
            sound: self.sound@,
            motion: self.motion@,
            minute: self.minute,
        }
    }
}

/// The window model after one event is ingested: data extends the three
/// sequences with the chunk's readings; a timeout or a fault changes
/// nothing.
pub open spec fn window_after_ingest(w: WindowModel, e: ReadEvent) -> WindowModel {
    match e {
        ReadEvent::Data(bytes) => if is_utf8(bytes@) {
            WindowModel {
                light: w.light + lights_of(chunk_readings(bytes@)),
                sound: w.sound + sounds_of(chunk_readings(bytes@)),
                motion: w.motion + motions_of(chunk_readings(bytes@)),
                minute: w.minute,
            }
        } else {
            w
        },
        ReadEvent::Timeout => w,
        ReadEvent::Failed => w,
    }
}

/// The directive one event earns: only undecodable bytes are fatal, only a
/// connection fault asks for a reconnect.
pub open spec fn ingest_directive(e: ReadEvent) -> Directive {
    match e {
        ReadEvent::Data(bytes) => if is_utf8(bytes@) {
            Directive::Continue
        } else {
            Directive::Fatal
        },
        ReadEvent::Timeout => Directive::Continue,
        ReadEvent::Failed => Directive::Reconnect,
    }
}

/// The Read Loop's decision core: it owns the aggregation window and turns
/// each read outcome into window updates and a directive for the caller.
pub struct Supervisor {
    pub window: AggregationWindow,
}

impl Supervisor {
    /// A supervisor with an empty window opened at the given minute.
    pub fn new(minute: u32) -> (r: Self)
        ensures
            r.window@ == (WindowModel {
                light: Seq::<i32>::empty(),
                sound: Seq::<i32>::empty(),
                motion: Seq::<i32>::empty(),
                minute,
            }),
    {
        let r = Supervisor { window: AggregationWindow::new(minute) };
        proof {
            assert(r.window@ =~= WindowModel {
                light: Seq::<i32>::empty(),
                sound: Seq::<i32>::empty(),
                motion: Seq::<i32>::empty(),
                minute,
            });
        }
        r
    }

    /// Feeds one read outcome to the supervisor: decodes, frames, parses and
    /// observes on data; does nothing on a timeout; asks for a reconnect on
    /// a fault, leaving the in-progress window untouched.
    pub fn ingest(&mut self, event: &ReadEvent) -> (d: Directive)
        ensures
            final(self).window@ == window_after_ingest(old(self).window@, *event),
            d == ingest_directive(*event),
    {
        match event {
            ReadEvent::Data(bytes) => {
                if !check_utf8(bytes.as_slice()) {
                    proof {
                        assert(final(self).window@ =~= window_after_ingest(
                            old(self).window@,
                            *event,
                        ));
                    }
                    return Directive::Fatal;
                }
                let ghost w0 = self.window@;
                let frames = split_frames(bytes.as_slice());
                let ghost fviews = frames@.map_values(|v: Vec<u8>| v@);
                let mut fi: usize = 0;
                proof {
                    assert(fviews.take(0) =~= Seq::<Seq<u8>>::empty());
                    assert(w0.light + lights_of(frames_readings(fviews.take(0))) =~= w0.light);
                    assert(w0.sound + sounds_of(frames_readings(fviews.take(0))) =~= w0.sound);
                    assert(w0.motion + motions_of(frames_readings(fviews.take(0))) =~= w0.motion);
                }
                while fi < frames.len()
                    invariant
                        fi <= frames@.len(),
                        fviews == frames@.map_values(|v: Vec<u8>| v@),
                        fviews == split_crlf(bytes@),
                        self.window.light@ == w0.light + lights_of(
                            frames_readings(fviews.take(fi as int)),
                        ),
                        self.window.sound@ == w0.sound + sounds_of(
                            frames_readings(fviews.take(fi as int)),
                        ),
                        self.window.motion@ == w0.motion + motions_of(
                            frames_readings(fviews.take(fi as int)),
                        ),
                        self.window.minute == w0.minute,
                    decreases frames@.len() - fi,
                {
                    proof {
                        assert(fviews[fi as int] == frames@[fi as int]@);
                    }
                    let readings = parse_frame(frames[fi].as_slice());
                    let ghost base = frames_readings(fviews.take(fi as int));
                    let mut ri: usize = 0;
                    proof {
                        assert(base + readings@.take(0) =~= base);
                    }
                    while ri < readings.len()
                        invariant
                            ri <= readings@.len(),
                            readings@ == frame_readings(fviews[fi as int]),
                            base == frames_readings(fviews.take(fi as int)),
                            self.window.light@ == w0.light + lights_of(
                                base + readings@.take(ri as int),
                            ),
                            self.window.sound@ == w0.sound + sounds_of(
                                base + readings@.take(ri as int),
                            ),
                            self.window.motion@ == w0.motion + motions_of(
                                base + readings@.take(ri as int),
                            ),
                            self.window.minute == w0.minute,
                        decreases readings@.len() - ri,
                    {
                        let r = readings[ri];
                        self.window.observe(r);
                        proof {
                            let pre = base + readings@.take(ri as int);
                            let post = base + readings@.take(ri + 1);
                            assert(post =~= pre.push(readings@[ri as int]));
                            lemma_lights_of_push(pre, readings@[ri as int]);
                            lemma_sounds_of_push(pre, readings@[ri as int]);
                            lemma_motions_of_push(pre, readings@[ri as int]);
                            match readings@[ri as int] {
                                Reading::Light(v) => {
                                    assert(lights_of(post) =~= lights_of(pre).push(v));
                                    assert(sounds_of(post) =~= sounds_of(pre));
                                    assert(motions_of(post) =~= motions_of(pre));
                                    assert(self.window.light@ =~= w0.light + lights_of(post));
                                },
                                Reading::Sound(v) => {
                                    assert(sounds_of(post) =~= sounds_of(pre).push(v));
                                    assert(lights_of(post) =~= lights_of(pre));
                                    assert(motions_of(post) =~= motions_of(pre));
                                    assert(self.window.sound@ =~= w0.sound + sounds_of(post));
                                },
                                Reading::Motion(v) => {
                                    assert(motions_of(post) =~= motions_of(pre).push(v));
                                    assert(lights_of(post) =~= lights_of(pre));
                                    assert(sounds_of(post) =~= sounds_of(pre));
                                    assert(self.window.motion@ =~= w0.motion + motions_of(post));
                                },
                            }
                        }
                        ri = ri + 1;
                    }
                    proof {
                        assert(readings@.take(readings@.len() as int) =~= readings@);
                        assert(fviews.take(fi + 1) =~= fviews.take(fi as int).push(
                            fviews[fi as int],
                        ));
                        lemma_frames_readings_push(fviews.take(fi as int), fviews[fi as int]);
                        assert(base + readings@ =~= frames_readings(fviews.take(fi + 1)));
                    }
                    fi = fi + 1;
                }
                proof {
                    assert(fviews.take(frames@.len() as int) =~= fviews);
                    assert(final(self).window@ =~= window_after_ingest(old(self).window@, *event));
                }
                Directive::Continue
            },
            ReadEvent::Timeout => {
                proof {
                    assert(final(self).window@ =~= window_after_ingest(old(self).window@, *event));
                }
                Directive::Continue
            },
            ReadEvent::Failed => {
                proof {
                    assert(final(self).window@ =~= window_after_ingest(old(self).window@, *event));
                }
                Directive::Reconnect
            },
        }
    }

    /// Once per loop iteration: if the wall-clock minute moved past the
    /// window's marker, close the minute and hand back its summary (if the
    /// light guard allows one); otherwise change nothing.
    pub fn tick(&mut self, now: Timestamp) -> (r: Option<Summary>)
        ensures
            now.minute == old(self).window@.minute ==> final(self).window@ == old(self).window@
                && r is None,
            now.minute != old(self).window@.minute ==> r == old(self).window.summary_of(now)
                && final(self).window@ == (WindowModel {
                light: Seq::<i32>::empty(),
                sound: Seq::<i32>::empty(),
                motion: Seq::<i32>::empty(),
                minute: now.minute,
            }),
    {
        if now.minute != self.window.minute {
            let r = self.window.rollover(now);
            proof {
                assert(final(self).window@ =~= WindowModel {
                    light: Seq::<i32>::empty(),
                    sound: Seq::<i32>::empty(),
                    motion: Seq::<i32>::empty(),
                    minute: now.minute,
                });
            }
            r
        } else {
            None
        }
    }
}

/// Reconnection preserves mid-minute data: a connection fault leaves the
/// window's model exactly as it was, and data ingested after the reconnect
/// extends exactly what had accumulated before the fault.
pub proof fn lemma_reconnect_preserves_window(w: WindowModel, bytes: Vec<u8>)
    ensures
        window_after_ingest(w, ReadEvent::Failed) == w,
        is_utf8(bytes@) ==> window_after_ingest(
            window_after_ingest(w, ReadEvent::Failed),
            ReadEvent::Data(bytes),
        ).light == w.light + lights_of(chunk_readings(bytes@)),
{
}

} // verus!
