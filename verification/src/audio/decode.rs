//! Decoding without the decoder: what the loop does after each thing that can
//! happen, and the window of a remote file that it reads from.

use vstd::prelude::*;

use crate::audio::sink::AudioSpec;
use crate::text;

verus! {

/// What happened in the decode loop.
pub enum DecodeEvent {
    /// The session says to go on.
    Continue,
    /// The session says to stop.
    Break,
    /// The session wants to seek; `known` says whether the length is known.
    SeekAsked { known: bool },
    /// The seek landed at this frame.
    Sought { frames: u64 },
    /// The seek failed; the target as text, and why.
    SeekFailed { target: String, cause: String },
    /// A packet came, of the track that plays or of another.
    Packet { ours: bool },
    /// The input is at its end.
    EndOfInput,
    /// Reading asks for the decoder to be reset.
    ReadReset,
    ReadFailed(String),
    /// The packet decoded to that many frames of that format; `places` has a bit
    /// for the place of each channel.
    Decoded { rate: u32, places: u32, channels: usize, frames: u64 },
    /// The packet is corrupt.
    Corrupt,
    /// Decoding asks for the decoder to be reset.
    DecodeReset,
    DecodeFailed(String),
    /// The frames are played.
    Played,
}

/// What the decode loop does next.
pub enum DecodeAction {
    /// Ask the session whether to go on.
    Control,
    /// Seek.
    Seek,
    /// Read a packet.
    Read,
    /// Reset the decoder, then read a packet.
    ResetAndRead,
    /// Reset the decoder, then ask the session.
    ResetAndControl,
    /// Reset the decoder and the analyser, then ask the session.
    ForgetAndControl,
    /// Decode the packet.
    Decode,
    /// Play the frames. `fresh` asks for a buffer of the new format,
    /// `reconfigure` for the equalizer and the analyser to follow it.
    Play { fresh: bool, reconfigure: bool },
    /// The loop is over; `ended` where the input is.
    Done { ended: bool },
    Fail(String),
}

/// The decode loop between two things that happen.
pub struct DecodeLoop {
    /// The format that the sink was opened for.
    pub spec: AudioSpec,
    /// The rate and the channels' places of the buffer, once there is one.
    pub format: Option<(u32, u32)>,
    /// Decoded frames at the current position.
    pub frames: u64,
    pub ended: bool,
}

/// The message for something that failed.
pub open spec fn failure_of(event: DecodeEvent) -> Option<Seq<char>> {
    match event {
        DecodeEvent::SeekFailed { target, cause } => Some(
            "seeking to "@ + target@ + "s: "@ + cause@,
        ),
        DecodeEvent::ReadFailed(cause) => Some("reading the next audio packet: "@ + cause@),
        DecodeEvent::DecodeFailed(cause) => Some("decoding an audio packet: "@ + cause@),
        _ => None,
    }
}

/// What follows an event, where it is no failure.
pub open spec fn follows(l: DecodeLoop, event: DecodeEvent) -> DecodeAction {
    match event {
        DecodeEvent::Continue => DecodeAction::Read,
        DecodeEvent::Break => DecodeAction::Done { ended: false },
        DecodeEvent::SeekAsked { known } => if known {
            DecodeAction::Seek
        } else {
            DecodeAction::Control
        },
        DecodeEvent::Sought { frames } => DecodeAction::ForgetAndControl,
        DecodeEvent::Packet { ours } => if ours {
            DecodeAction::Decode
        } else {
            DecodeAction::Read
        },
        DecodeEvent::EndOfInput => DecodeAction::Done { ended: true },
        DecodeEvent::ReadReset => DecodeAction::ResetAndRead,
        DecodeEvent::Decoded { rate, places, channels, frames } => DecodeAction::Play {
            fresh: l.format != Some((rate, places)),
            reconfigure: l.format != Some((rate, places)) && (channels != l.spec.channels || rate
                != l.spec.rate),
        },
        DecodeEvent::Corrupt => DecodeAction::Control,
        DecodeEvent::DecodeReset => DecodeAction::ResetAndControl,
        _ => DecodeAction::Control,
    }
}

impl DecodeLoop {
    pub fn new(spec: AudioSpec) -> (l: Self)
        ensures
            l == (DecodeLoop { spec, format: None, frames: 0, ended: false }),
    {
        DecodeLoop { spec, format: None, frames: 0, ended: false }
    }

    /// Takes in what happened and says what comes next.
    pub fn step(&mut self, event: DecodeEvent) -> (action: DecodeAction)
        requires
            event matches DecodeEvent::Decoded { frames, .. } ==> old(self).frames + frames
                <= u64::MAX,
        ensures
            match failure_of(event) {
                Some(m) => action matches DecodeAction::Fail(t) && t@ == m,
                None => action == follows(*old(self), event),
            },
            final(self).spec == old(self).spec,
            final(self).ended == (old(self).ended || event is EndOfInput),
            final(self).format == (match event {
                DecodeEvent::Decoded { rate, places, .. } => Some((rate, places)),
                _ => old(self).format,
            }),
            final(self).frames == (match event {
                DecodeEvent::Sought { frames } => frames as int,
                DecodeEvent::Decoded { frames, .. } => old(self).frames + frames,
                _ => old(self).frames as int,
            }),
    {
        match event {
            DecodeEvent::Continue => DecodeAction::Read,
            DecodeEvent::Break => DecodeAction::Done { ended: false },
            DecodeEvent::SeekAsked { known } => if known {
                DecodeAction::Seek
            } else {
                DecodeAction::Control
            },
            DecodeEvent::Sought { frames } => {
                self.frames = frames;
                DecodeAction::ForgetAndControl
            },
            DecodeEvent::SeekFailed { target, cause } => {
                let mut m = "seeking to ".to_owned();
                m.append(target.as_str());
                m.append("s: ");
                m.append(cause.as_str());
                DecodeAction::Fail(m)
            },
            DecodeEvent::Packet { ours } => if ours {
                DecodeAction::Decode
            } else {
                DecodeAction::Read
            },
            DecodeEvent::EndOfInput => {
                self.ended = true;
                DecodeAction::Done { ended: true }
            },
            DecodeEvent::ReadReset => DecodeAction::ResetAndRead,
            DecodeEvent::ReadFailed(cause) => {
                let mut m = "reading the next audio packet: ".to_owned();
                m.append(cause.as_str());
                DecodeAction::Fail(m)
            },
            DecodeEvent::Decoded { rate, places, channels, frames } => {
                let fresh = match self.format {
                    Some(f) => f.0 != rate || f.1 != places,
                    None => true,
                };
                let reconfigure = fresh && (channels != self.spec.channels as usize || rate
                    != self.spec.rate);
                self.format = Some((rate, places));
                self.frames = self.frames + frames;
                DecodeAction::Play { fresh, reconfigure }
            },
            DecodeEvent::Corrupt => DecodeAction::Control,
            DecodeEvent::DecodeReset => DecodeAction::ResetAndControl,
            DecodeEvent::DecodeFailed(cause) => {
                let mut m = "decoding an audio packet: ".to_owned();
                m.append(cause.as_str());
                DecodeAction::Fail(m)
            },
            DecodeEvent::Played => DecodeAction::Control,
        }
    }
}

/// Being stopped does not look like the end of the track: only the end of the
/// input ends it.
pub proof fn lemma_break_is_no_end(l: DecodeLoop, event: DecodeEvent)
    requires
        failure_of(event) is None,
    ensures
        follows(l, event) == (DecodeAction::Done { ended: true }) <==> event is EndOfInput,
        event is Break ==> follows(l, event) == (DecodeAction::Done { ended: false }),
{
}

/// What is said of a failure names what was being done and ends with the cause;
/// nothing else that happens is a failure.
pub proof fn lemma_decode_failures(event: DecodeEvent)
    ensures
        failure_of(event) is Some <==> event is SeekFailed || event is ReadFailed
            || event is DecodeFailed,
        event matches DecodeEvent::SeekFailed { target, cause } ==> failure_of(event) == Some(
            "seeking to "@ + target@ + "s: "@ + cause@,
        ),
        event matches DecodeEvent::ReadFailed(cause) ==> failure_of(event) == Some(
            "reading the next audio packet: "@ + cause@,
        ),
        event matches DecodeEvent::DecodeFailed(cause) ==> failure_of(event) == Some(
            "decoding an audio packet: "@ + cause@,
        ),
{
}

/// Bytes asked for in one request.
pub const CHUNK: u64 = 524_288;

/// The number after the last slash of a `Content-Range` header.
pub open spec fn total_in(header: Seq<char>) -> Option<nat> {
    text::unsigned(text::trimmed(text::split(header, '/').last()), u64::MAX as nat)
}

/// What the decode loop does next: a packet of another track is passed over, one
/// of ours is decoded and then played, a seek is carried out where the length is
/// known, and after it what was held is forgotten. A buffer is fresh where its
/// format is not the one before, and the sink is opened anew where that format
/// is not the sink's.
pub proof fn lemma_decode_follows(
    l: DecodeLoop,
    rate: u32,
    places: u32,
    channels: usize,
    frames: u64,
)
    ensures
        follows(l, DecodeEvent::Continue) is Read,
        follows(l, DecodeEvent::SeekAsked { known: true }) is Seek,
        follows(l, DecodeEvent::SeekAsked { known: false }) is Control,
        follows(l, DecodeEvent::Sought { frames }) is ForgetAndControl,
        follows(l, DecodeEvent::Packet { ours: true }) is Decode,
        follows(l, DecodeEvent::Packet { ours: false }) is Read,
        follows(l, DecodeEvent::ReadReset) is ResetAndRead,
        follows(l, DecodeEvent::DecodeReset) is ResetAndControl,
        follows(l, DecodeEvent::Corrupt) is Control,
        follows(l, DecodeEvent::Played) is Control,
        ({
            let next = follows(l, DecodeEvent::Decoded { rate, places, channels, frames });
            &&& l.format == Some((rate, places)) ==> next == (DecodeAction::Play {
                fresh: false,
                reconfigure: false,
            })
            &&& l.format != Some((rate, places)) && rate == l.spec.rate && channels
                == l.spec.channels ==> next == (DecodeAction::Play {
                fresh: true,
                reconfigure: false,
            })
            &&& l.format != Some((rate, places)) && (rate != l.spec.rate || channels
                != l.spec.channels) ==> next == (DecodeAction::Play {
                fresh: true,
                reconfigure: true,
            })
        }),
{
}

/// The size of a file is what follows the last slash of the header, whatever
/// stands before it; an asterisk, or nothing, tells no size.
pub proof fn lemma_content_range(front: Seq<char>, n: u64)
    ensures
        total_in(front + seq!['/'] + text::decimal(n as nat)) == Some(n as nat),
        total_in(front + seq!['/'] + seq!['*']) is None,
        total_in(front + seq!['/']) is None,
{
    let digits = text::decimal(n as nat);
    text::lemma_decimal_digits(n as nat);
    text::lemma_unsigned_round_trip(n as nat, u64::MAX as nat);
    assert(text::is_digit(digits[0]) && text::is_digit(digits[digits.len() - 1]));
    assert(!digits.contains('/')) by {
        if digits.contains('/') {
            let i = choose|i: int| 0 <= i < digits.len() && digits[i] == '/';
            assert(text::is_digit(digits[i]));
        }
    }
    text::lemma_split_append(front, digits, '/');
    text::lemma_split_whole(digits, '/');
    let none = Seq::<char>::empty();
    text::lemma_trimmed_is(none, digits, none);
    assert(none + digits + none =~= digits);
    let star = seq!['*'];
    text::lemma_split_append(front, star, '/');
    text::lemma_split_whole(star, '/');
    text::lemma_trimmed_is(none, star, none);
    assert(none + star + none =~= star);
    assert(text::natural(star) is None) by {
        assert(!text::is_digit(star[0]));
    }
    text::lemma_split_append(front, none, '/');
    text::lemma_split_whole(none, '/');
    assert(front + seq!['/'] + none =~= front + seq!['/']);
    text::lemma_trimmed_is(none, none, none);
    assert(none + none + none =~= none);
}

/// `bytes 0-524287/7300000` gives `7300000`.
pub fn parse_content_range_total(header: &str) -> (total: Option<u64>)
    ensures
        match total {
            Some(n) => total_in(header@) == Some(n as nat),
            None => total_in(header@) is None,
        },
{
    let parts = text::split_on(header, '/');
    let n: usize = parts.len();
    assert(text::split(header@, '/').last() == parts@[n - 1]@);
    text::parse_unsigned(text::trim(parts[n - 1].as_str()).as_str(), u64::MAX)
}

/// Where a read or a seek goes.
#[derive(Clone, Copy, Debug)]
pub enum SeekTarget {
    Start(u64),
    Current(i64),
    End(i64),
}

/// Why a request or a seek was turned down.
#[derive(Debug, PartialEq, Eq)]
pub enum SourceError {
    /// The server answered with another status.
    Status(String),
    /// The server sent the whole file where a part was asked for.
    RangeIgnored,
    /// Seeking from an end that is not known yet.
    LengthUnknown,
    /// Seeking to a place that no file has.
    NegativeSeek,
}

impl SourceError {
    /// The message for people.
    pub fn message(&self) -> (m: String)
        ensures
            m@ == (match *self {
                SourceError::Status(s) => "stream fetch returned HTTP "@ + s@,
                SourceError::RangeIgnored => "server ignored the Range request"@,
                SourceError::LengthUnknown => "cannot seek from end before the length is known"@,
                SourceError::NegativeSeek => "negative seek position"@,
            }),
    {
        match self {
            SourceError::Status(s) => {
                let mut m = "stream fetch returned HTTP ".to_owned();
                m.append(s.as_str());
                m
            },
            SourceError::RangeIgnored => "server ignored the Range request".to_owned(),
            SourceError::LengthUnknown =>
                "cannot seek from end before the length is known".to_owned(),
            SourceError::NegativeSeek => "negative seek position".to_owned(),
        }
    }
}

/// What a read has to do first.
#[derive(Clone, Copy, Debug, PartialEq, Eq, Structural)]
pub enum ReadPlan {
    /// Nothing is wanted, or the file is at its end.
    Nothing,
    /// Bytes are in the buffer.
    Copy,
    /// The buffer is empty here: fetch `start..=end` first.
    Fetch { start: u64, end: u64 },
}

/// A window of a remote file: the position of the next read, and one fetched
/// part of the file.
pub struct RangedSource {
    pub pos: u64,
    pub buf: Vec<u8>,
    pub buf_start: u64,
    pub len: Option<u64>,
}

impl RangedSource {
    pub open spec fn wf(self) -> bool {
        &&& self.pos <= i64::MAX
        &&& self.buf_start + self.buf@.len() <= i64::MAX
    }

    /// How many bytes of the buffer lie at or after the position, where the
    /// position is inside it.
    pub open spec fn ahead(self) -> nat {
        let end = self.buf_start + self.buf@.len();
        if self.buf_start <= self.pos < end {
            (end - self.pos) as nat
        } else {
            0
        }
    }

    /// Whether the buffer holds that part of the file.
    pub open spec fn holds(self, file: Seq<u8>) -> bool {
        self.buf@.len() > 0 ==> {
            &&& self.buf_start + self.buf@.len() <= file.len()
            &&& self.buf@ == file.subrange(
                self.buf_start as int,
                self.buf_start + self.buf@.len(),
            )
        }
    }

    /// The bytes that a read of up to `n` takes from the buffer.
    pub open spec fn readable(self, n: nat) -> Seq<u8> {
        let count = if n < self.ahead() {
            n
        } else {
            self.ahead()
        };
        if count == 0 {
            Seq::empty()
        } else {
            self.buf@.subrange(self.pos - self.buf_start, self.pos - self.buf_start + count)
        }
    }

    /// Where a seek goes, if there is such a place.
    pub open spec fn seek_position(self, to: SeekTarget) -> Option<int> {
        let place = match to {
            SeekTarget::Start(n) => n as int,
            SeekTarget::Current(d) => self.pos + d,
            SeekTarget::End(d) => if self.len is Some && self.len->0 <= i64::MAX {
                self.len->0 + d
            } else {
                -1
            },
        };
        if 0 <= place <= i64::MAX {
            Some(place)
        } else {
            None
        }
    }

    pub fn new() -> (s: Self)
        ensures
            s.wf(),
            s.pos == 0,
            s.buf@.len() == 0,
            s.buf_start == 0,
            s.len is None,
    {
        RangedSource { pos: 0, buf: Vec::new(), buf_start: 0, len: None }
    }

    /// Bytes buffered from the position on.
    pub fn buffered_ahead(&self) -> (n: usize)
        requires
            self.wf(),
        ensures
            n == self.ahead(),
    {
        let end: u64 = self.buf_start + self.buf.len() as u64;
        if self.pos >= self.buf_start && self.pos < end {
            (end - self.pos) as usize
        } else {
            0
        }
    }

    /// What a read of up to `wanted` bytes has to do first.
    pub fn plan_read(&self, wanted: usize) -> (plan: ReadPlan)
        requires
            self.wf(),
        ensures
            plan == (if wanted == 0 {
                ReadPlan::Nothing
            } else if self.ahead() > 0 {
                ReadPlan::Copy
            } else if self.len is Some && self.pos >= self.len->0 {
                ReadPlan::Nothing
            } else {
                ReadPlan::Fetch { start: self.pos, end: (self.pos + CHUNK - 1) as u64 }
            }),
    {
        if wanted == 0 {
            return ReadPlan::Nothing;
        }
        if self.buffered_ahead() > 0 {
            return ReadPlan::Copy;
        }
        if let Some(len) = self.len {
            if self.pos >= len {
                return ReadPlan::Nothing;
            }
        }
        ReadPlan::Fetch { start: self.pos, end: self.pos + CHUNK - 1 }
    }

    /// The value of the `Range` header of a fetch.
    pub fn range_header(start: u64, end: u64) -> (h: String)
        ensures
            h@ == "bytes="@ + text::decimal(start as nat) + "-"@ + text::decimal(end as nat),
    {
        let mut h = "bytes=".to_owned();
        h.append(text::to_decimal(start).as_str());
        h.append("-");
        h.append(text::to_decimal(end).as_str());
        h
    }

    /// Takes in the answer to a fetch at the position: the body becomes the
    /// buffer, and the length of the file is learned where it can be.
    pub fn fill(
        &mut self,
        status: u16,
        status_text: &str,
        content_range: Option<String>,
        body: Vec<u8>,
    ) -> (r: Result<usize, SourceError>)
        requires
            old(self).wf(),
            old(self).pos + body@.len() <= i64::MAX,
        ensures
            final(self).wf(),
            final(self).pos == old(self).pos,
            match r {
                Ok(n) => {
                    &&& 200 <= status < 300
                    &&& !(status == 200 && old(self).pos > 0)
                    &&& n == body@.len()
                    &&& final(self).buf@ == body@
                    &&& final(self).buf_start == old(self).pos
                    &&& final(self).len == (match content_range {
                        Some(h) if total_in(h@) is Some => Some(total_in(h@)->0 as u64),
                        _ => if status == 200 {
                            Some(body@.len() as u64)
                        } else {
                            old(self).len
                        },
                    })
                },
                Err(e) => {
                    &&& *final(self) == *old(self)
                    &&& if 200 <= status < 300 {
                        status == 200 && old(self).pos > 0 && e is RangeIgnored
                    } else {
                        e matches SourceError::Status(s) && s@ == status_text@
                    }
                },
            },
    {
        if !(200 <= status && status < 300) {
            return Err(SourceError::Status(status_text.to_owned()));
        }
        if status == 200 && self.pos > 0 {
            return Err(SourceError::RangeIgnored);
        }
        let total = match &content_range {
            Some(h) => parse_content_range_total(h.as_str()),
            None => None,
        };
        if let Some(n) = total {
            self.len = Some(n);
        } else if status == 200 {
            self.len = Some(body.len() as u64);
        }
        self.buf = body;
        self.buf_start = self.pos;
        Ok(self.buf.len())
    }

    /// Takes up to `wanted` bytes out of the buffer.
    pub fn read(&mut self, wanted: usize) -> (out: Vec<u8>)
        requires
            old(self).wf(),
        ensures
            final(self).wf(),
            out@ == old(self).readable(wanted as nat),
            out@.len() == (if wanted < old(self).ahead() {
                wanted as nat
            } else {
                old(self).ahead()
            }),
            final(self).pos == old(self).pos + out@.len(),
            final(self).buf == old(self).buf,
            final(self).buf_start == old(self).buf_start,
            final(self).len == old(self).len,
    {
        let mut out: Vec<u8> = Vec::new();
        let available: usize = self.buffered_ahead();
        let n: usize = if wanted < available {
            wanted
        } else {
            available
        };
        if n == 0 {
            return out;
        }
        let offset: usize = (self.pos - self.buf_start) as usize;
        let size: usize = self.buf.len();
        let mut i: usize = 0;
        while i < n
            invariant
                i <= n,
                size == self.buf@.len(),
                offset + n <= size,
                out@ == self.buf@.subrange(offset as int, offset + i),
            decreases n - i,
        {
            assert(self.buf@.subrange(offset as int, offset + i + 1) =~= self.buf@.subrange(
                offset as int,
                offset + i,
            ).push(self.buf@[offset + i]));
            out.push(self.buf[offset + i]);
            i += 1;
        }
        self.pos = self.pos + n as u64;
        out
    }

    /// Moves the position. A buffer that does not reach there is dropped.
    pub fn seek(&mut self, to: SeekTarget) -> (r: Result<u64, SourceError>)
        requires
            old(self).wf(),
        ensures
            final(self).wf(),
            final(self).len == old(self).len,
            match r {
                Ok(p) => {
                    &&& old(self).seek_position(to) == Some(p as int)
                    &&& final(self).pos == p
                    &&& if (RangedSource { pos: p, ..*old(self) }).ahead() > 0 {
                        final(self).buf@ == old(self).buf@ && final(self).buf_start == old(
                            self,
                        ).buf_start
                    } else {
                        final(self).buf@.len() == 0 && final(self).buf_start == p
                    }
                },
                Err(e) => {
                    &&& *final(self) == *old(self)
                    &&& old(self).seek_position(to) is None
                    &&& e is LengthUnknown <==> to is End && old(self).len is None
                    &&& e is LengthUnknown || e is NegativeSeek
                },
            },
    {
        let place: i128 = match to {
            SeekTarget::Start(n) => n as i128,
            SeekTarget::Current(d) => self.pos as i128 + d as i128,
            SeekTarget::End(d) => match self.len {
                Some(len) => if len <= i64::MAX as u64 {
                    len as i128 + d as i128
                } else {
                    -1
                },
                None => return Err(SourceError::LengthUnknown),
            },
        };
        if place < 0 || place > i64::MAX as i128 {
            return Err(SourceError::NegativeSeek);
        }
        self.pos = place as u64;
        if self.buffered_ahead() == 0 {
            self.buf.clear();
            self.buf_start = self.pos;
        }
        Ok(self.pos)
    }
}

/// A read gives the file's own bytes at the position, as many as were wanted
/// or are at hand, however the position came about.
pub proof fn lemma_reads_the_file(s: RangedSource, file: Seq<u8>, wanted: nat)
    requires
        s.wf(),
        s.holds(file),
        s.ahead() > 0,
    ensures
        s.pos + s.readable(wanted).len() <= file.len(),
        s.readable(wanted) == file.subrange(s.pos as int, s.pos + s.readable(wanted).len()),
        wanted > 0 ==> s.readable(wanted).len() > 0,
{
    let count = s.readable(wanted).len();
    assert(s.readable(wanted) =~= file.subrange(s.pos as int, s.pos + count));
}

/// A seek goes from the start, from the position or from the end of the file,
/// and never before its start; from an end that is not known it goes nowhere.
pub proof fn lemma_seek_places(s: RangedSource, n: u64, d: i64)
    requires
        s.wf(),
    ensures
        n <= i64::MAX ==> s.seek_position(SeekTarget::Start(n)) == Some(n as int),
        0 <= s.pos + d <= i64::MAX ==> s.seek_position(SeekTarget::Current(d)) == Some(
            s.pos + d,
        ),
        s.pos + d < 0 ==> s.seek_position(SeekTarget::Current(d)) is None,
        s.len is None ==> s.seek_position(SeekTarget::End(d)) is None,
        s.len matches Some(len) ==> len <= i64::MAX ==> {
            &&& 0 <= len + d <= i64::MAX ==> s.seek_position(SeekTarget::End(d)) == Some(len + d)
            &&& len + d < 0 ==> s.seek_position(SeekTarget::End(d)) is None
        },
        s.seek_position(SeekTarget::Current(0)) == Some(s.pos as int),
{
}

/// What lies ahead in the buffer is what a read can take: nothing outside the
/// buffer, all of it at its start, and one byte less for every byte further on.
pub proof fn lemma_ahead(s: RangedSource, wanted: nat)
    ensures
        s.pos < s.buf_start ==> s.ahead() == 0,
        s.pos >= s.buf_start + s.buf@.len() ==> s.ahead() == 0,
        s.buf_start <= s.pos <= s.buf_start + s.buf@.len() ==> s.ahead() == s.buf@.len() - (s.pos
            - s.buf_start),
        wanted <= s.ahead() ==> s.readable(wanted).len() == wanted,
        wanted > s.ahead() ==> s.readable(wanted).len() == s.ahead(),
{
}

/// A source that is fed a file stays true to it: an answer with the file's own
/// bytes, a read and a seek all leave a buffer that holds nothing else.
pub proof fn lemma_stays_true(
    before: RangedSource,
    after: RangedSource,
    file: Seq<u8>,
    body: Seq<u8>,
)
    requires
        before.holds(file),
        before.pos + body.len() <= file.len(),
        body == file.subrange(before.pos as int, before.pos + body.len()),
        ({
            let filled = after.buf@ == body && after.buf_start == before.pos;
            let kept = after.buf@ == before.buf@ && after.buf_start == before.buf_start;
            let dropped = after.buf@.len() == 0;
            filled || kept || dropped
        }),
    ensures
        after.holds(file),
{
}

} // verus!
