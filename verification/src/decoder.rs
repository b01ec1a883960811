//! Locating frames in a byte stream.
use vstd::prelude::*;
use crate::{FrameInfo, HDR_SIZE, MAX_FREE_FORMAT_FRAME_SIZE, MAX_FRAME_SYNC_MATCHES};
use crate::bits::Bits;
use crate::header::{is_crc, protection_bit, bitrate_kbps, bitrate_of, channel_mode, get_layer, is_mono, layer_field, sample_rate_hz, sample_rate_of, compare, is_valid, valid_header, readable_for_validity, compatible_headers, frame_length, lemma_valid_header_is_sized, lemma_valid_frame_length_bound, padding, padding_bytes, sized_header};

verus! {

/// The bytes of `s` from position `i` on.
pub open spec fn at(s: Seq<u8>, i: int) -> Seq<u8> {
    s.subrange(i, s.len() as int)
}

/// Where the frame that starts at `i` ends: its size with padding added.
pub open spec fn next_frame_pos(h: Seq<u8>, free_format_size: int, i: int) -> int {
    i + frame_length(at(h, i), free_format_size) + padding_bytes(at(h, i))
}

/// Whether the frames that follow the one at `i` line up: stepping from
/// frame to frame, each header met before the end of `h` is compatible with
/// the first one, until `MAX_FRAME_SYNC_MATCHES` of them have been checked;
/// where the end comes first, at least one must have been met. `n` counts
/// the headers already checked.
pub open spec fn frames_match_from(h: Seq<u8>, free_format_size: int, i: int, n: int) -> bool
    decreases MAX_FRAME_SYNC_MATCHES - n,
{
    if n >= MAX_FRAME_SYNC_MATCHES {
        true
    } else {
        let next = next_frame_pos(h, free_format_size, i);
        if next + 4 > h.len() {
            n > 0
        } else if !compatible_headers(h, at(h, next)) {
            false
        } else {
            frames_match_from(h, free_format_size, next, n + 1)
        }
    }
}

/// Whether the frames that follow the one at the start of `hdr`, of
/// `frame_bytes` bytes where free format, line up with it (see
/// `frames_match_from`).
pub fn match_frame(hdr: &[u8], frame_bytes: i32) -> (r: bool)
    requires
        sized_header(hdr@),
        0 <= frame_bytes <= i32::MAX - 4,
    ensures
        r == frames_match_from(hdr@, frame_bytes as int, 0, 0),
{
    let mut i: usize = 0;
    let mut nmatch: i32 = 0;
    while nmatch < MAX_FRAME_SYNC_MATCHES
        invariant
            0 <= nmatch <= MAX_FRAME_SYNC_MATCHES,
            i <= hdr@.len(),
            0 <= frame_bytes <= i32::MAX - 4,
            sized_header(at(hdr@, i as int)),
            frames_match_from(hdr@, frame_bytes as int, 0, 0) == frames_match_from(
                hdr@,
                frame_bytes as int,
                i as int,
                nmatch as int,
            ),
        decreases MAX_FRAME_SYNC_MATCHES - nmatch,
    {
        let view = &hdr[i..hdr.len()];
        let step = crate::header::frame_bytes(view, frame_bytes) + padding(view);
        if step as usize + 4 > hdr.len() - i {
            return nmatch > 0;
        }
        i += step as usize;
        let next = &hdr[i..hdr.len()];
        if !compare(hdr, next) {
            return false;
        }
        proof {
            lemma_valid_header_is_sized(next@);
        }
        nmatch += 1;
    }
    true
}


/// Whether, for a free-format frame at `pos`, `k` is the distance to the
/// next frame: the header at `pos + k` is compatible with the one at `pos`,
/// and so is the header after that frame, which lies within the buffer.
pub open spec fn free_format_pair(mp3: Seq<u8>, pos: int, k: int) -> bool {
    let view = at(mp3, pos);
    let fb = k - padding_bytes(view);
    let nextfb = fb + padding_bytes(at(mp3, pos + k));
    &&& compatible_headers(view, at(mp3, pos + k))
    &&& pos + k + nextfb + 4 <= mp3.len()
    &&& compatible_headers(view, at(mp3, pos + k + nextfb))
}

/// The search for the size of a free-format frame at `pos`: while no size
/// is known, distances `k` below `MAX_FREE_FORMAT_FRAME_SIZE` that leave
/// room for two more headers are tried in turn; a distance that
/// `free_format_pair` accepts gives the size without padding (which also
/// becomes the stream's free-format size) and the size with it. The result
/// is (size, size with padding, free-format size).
pub open spec fn free_format_search(
    mp3: Seq<u8>,
    pos: int,
    k: int,
    fb: int,
    fap: int,
    ffb: int,
) -> (int, int, int)
    decreases MAX_FREE_FORMAT_FRAME_SIZE - k,
{
    if fb == 0 && k < MAX_FREE_FORMAT_FRAME_SIZE && pos + 2 * k < mp3.len() - 4 {
        if free_format_pair(mp3, pos, k) {
            let f = k - padding_bytes(at(mp3, pos));
            free_format_search(mp3, pos, k + 1, f, k, f)
        } else {
            free_format_search(mp3, pos, k + 1, fb, fap, ffb)
        }
    } else {
        (fb, fap, ffb)
    }
}

/// The outcome of the search at a valid header at `pos`, with `ffb` the
/// stream's free-format size so far.
pub open spec fn candidate_sizes(mp3: Seq<u8>, pos: int, ffb: int) -> (int, int, int) {
    let view = at(mp3, pos);
    let fl = frame_length(view, ffb);
    free_format_search(mp3, pos, 4, fl, fl + padding_bytes(view), ffb)
}

/// Whether the valid header at `pos` starts a frame: its size is known,
/// the frame fits, and the frames after it line up; or it is the only frame
/// and fills the whole buffer.
pub open spec fn accepted_at(mp3: Seq<u8>, pos: int, ffb: int) -> bool {
    let c = candidate_sizes(mp3, pos, ffb);
    ||| (c.0 != 0 && pos + c.1 <= mp3.len() && frames_match_from(at(mp3, pos), c.0, 0, 0))
    ||| (pos == 0 && c.1 == mp3.len())
}

/// The scan for the first frame from `pos` on, with `ffb` the free-format
/// size so far: every position before the last four bytes whose header is
/// valid is tried in turn, and a
/// rejected one clears the free-format size. The result is (the position
/// of the frame, its size with padding, the free-format size); where none
/// is found, (the length less `HDR_SIZE`, or 0, then 0, then the free-format size).
pub open spec fn scan_frames(mp3: Seq<u8>, pos: int, ffb: int) -> (int, int, int)
    decreases mp3.len() - pos,
{
    if pos < 0 || pos + 4 >= mp3.len() {
        (if mp3.len() >= 4 { mp3.len() - 4 } else { 0 }, 0, ffb)
    } else if !valid_header(at(mp3, pos)) {
        scan_frames(mp3, pos + 1, ffb)
    } else if accepted_at(mp3, pos, ffb) {
        let c = candidate_sizes(mp3, pos, ffb);
        (pos, c.1, c.2)
    } else {
        scan_frames(mp3, pos + 1, 0)
    }
}

/// A frame that the scan finds starts with a valid header and lies within
/// the buffer.
pub proof fn lemma_scan_found(mp3: Seq<u8>, pos: int, ffb: int)
    requires
        0 <= pos,
    ensures
        ({
            let s = scan_frames(mp3, pos, ffb);
            &&& 0 <= s.0 <= mp3.len()
            &&& s.1 != 0 ==> pos <= s.0 && s.0 + 4 <= mp3.len() && valid_header(at(mp3, s.0))
                && s.0 + s.1 <= mp3.len()
        }),
    decreases mp3.len() - pos,
{
    if pos + 4 >= mp3.len() {
    } else if !valid_header(at(mp3, pos)) {
        lemma_scan_found(mp3, pos + 1, ffb);
    } else if accepted_at(mp3, pos, ffb) {
    } else {
        lemma_scan_found(mp3, pos + 1, 0);
    }
}

/// Searches `mp3` for the first frame that the frames after it confirm
/// (see `scan_frames`), measuring free-format frames on the way. Returns
/// where it starts and sets `ptr_frame_bytes` to its size with padding;
/// where there is none, the size is 0 and the result is how many bytes
/// can be skipped.
pub fn find_frame(mp3: &[u8], free_format_bytes: &mut i32, ptr_frame_bytes: &mut i32) -> (r: i32)
    requires
        mp3@.len() + 2 * MAX_FREE_FORMAT_FRAME_SIZE <= i32::MAX,
        0 <= *old(free_format_bytes),
        mp3@.len() + *old(free_format_bytes) + 4 <= i32::MAX,
    ensures
        (r as int, *final(ptr_frame_bytes) as int, *final(free_format_bytes) as int) == scan_frames(
            mp3@,
            0,
            *old(free_format_bytes) as int,
        ),
        0 <= r <= mp3@.len(),
        *final(free_format_bytes) == *old(free_format_bytes) || 0 <= *final(free_format_bytes) <= MAX_FREE_FORMAT_FRAME_SIZE,
        0 <= *final(ptr_frame_bytes),
        *final(ptr_frame_bytes) != 0 ==> r + 4 <= mp3@.len() && valid_header(at(mp3@, r as int))
            && r + *final(ptr_frame_bytes) <= mp3@.len(),
{
    let len = mp3.len();
    let ghost ffb0 = *free_format_bytes as int;
    proof {
        lemma_scan_found(mp3@, 0, ffb0);
    }
    let mut pos: usize = 0;
    while pos + 4 < len
        invariant
            len == mp3@.len(),
            pos <= len,
            len + 2 * MAX_FREE_FORMAT_FRAME_SIZE <= i32::MAX,
            0 <= ffb0,
            len + ffb0 + 4 <= i32::MAX,
            *free_format_bytes == ffb0 || 0 <= *free_format_bytes <= MAX_FREE_FORMAT_FRAME_SIZE,
            ffb0 == *old(free_format_bytes),
            scan_frames(mp3@, 0, ffb0) == scan_frames(mp3@, pos as int, *free_format_bytes as int),
        decreases len - pos,
    {
        let view = &mp3[pos..len];
        if is_valid(view) {
            proof {
                lemma_valid_header_is_sized(view@);
                lemma_valid_frame_length_bound(view@, *free_format_bytes as int);
            }
            let ghost ffb_in = *free_format_bytes as int;
            let mut frame_bytes = crate::header::frame_bytes(view, *free_format_bytes);
            let mut frame_and_padding = frame_bytes + padding(view);
            let ghost fb_in = frame_bytes as int;
            let mut k: i32 = 4;
            while frame_bytes == 0 && k < MAX_FREE_FORMAT_FRAME_SIZE && pos as i32 + 2 * k < len as i32 - 4
                invariant
                    len == mp3@.len(),
                    len + 2 * MAX_FREE_FORMAT_FRAME_SIZE <= i32::MAX,
                    pos + 4 < len,
                    view@ == at(mp3@, pos as int),
                    4 <= k <= MAX_FREE_FORMAT_FRAME_SIZE,
                    0 <= ffb0,
                    len + ffb0 + 4 <= i32::MAX,
                    fb_in == ffb_in || 0 <= fb_in <= MAX_FREE_FORMAT_FRAME_SIZE,
                    ffb_in == ffb0 || 0 <= ffb_in <= MAX_FREE_FORMAT_FRAME_SIZE,
                    (frame_bytes == fb_in && frame_and_padding <= fb_in + 4) || (0 <= frame_bytes <= MAX_FREE_FORMAT_FRAME_SIZE
                        && 0 <= frame_and_padding <= MAX_FREE_FORMAT_FRAME_SIZE + 4),
                    0 <= frame_bytes,
                    0 <= frame_and_padding,
                    *free_format_bytes == ffb0 || 0 <= *free_format_bytes <= MAX_FREE_FORMAT_FRAME_SIZE,
                    ffb0 == *old(free_format_bytes),
                    scan_frames(mp3@, 0, ffb0) == scan_frames(mp3@, pos as int, ffb_in),
                    valid_header(at(mp3@, pos as int)),
                    candidate_sizes(mp3@, pos as int, ffb_in) == free_format_search(
                        mp3@,
                        pos as int,
                        k as int,
                        frame_bytes as int,
                        frame_and_padding as int,
                        *free_format_bytes as int,
                    ),
                decreases MAX_FREE_FORMAT_FRAME_SIZE - k,
            {
                let at_k = &mp3[pos + k as usize..len];
                if compare(view, at_k) {
                    let fb = k - padding(view);
                    let nextfb = fb + padding(at_k);
                    if (pos as i32) + k + nextfb + 4 <= len as i32 {
                        let at_next = &mp3[pos + (k + nextfb) as usize..len];
                        if compare(view, at_next) {
                            frame_and_padding = k;
                            frame_bytes = fb;
                            *free_format_bytes = fb;
                        }
                    }
                }
                k += 1;
            }
            if (frame_bytes != 0 && pos as i32 + frame_and_padding <= len as i32 && match_frame(
                view,
                frame_bytes,
            )) || (pos == 0 && frame_and_padding == len as i32) {
                *ptr_frame_bytes = frame_and_padding;
                return pos as i32;
            }
            *free_format_bytes = 0;
        }
        pos += 1;
    }
    *ptr_frame_bytes = 0;
    if len >= 4 {
        (len - 4) as i32
    } else {
        0
    }
}


/// Whether a buffer starts with an ID3v2 tag: more than ten bytes, the
/// first three of them "ID3".
pub open spec fn has_id3v2(buf: Seq<u8>) -> bool {
    buf.len() > 10 && buf[0] == 0x49u8 && buf[1] == 0x44u8 && buf[2] == 0x33u8
}

/// The size of an ID3v2 tag with its ten-byte header: the header's four
/// size bytes hold seven bits each, most significant first.
pub open spec fn id3v2_size(buf: Seq<u8>) -> int {
    (buf[6] % 128) * 0x20_0000 + (buf[7] % 128) * 0x4000 + (buf[8] % 128) * 0x80 + (buf[9] % 128) + 10
}

/// The number of bytes of ID3v2 tag at the start of a buffer, 0 where
/// there is none.
pub fn skip_id3v2(buf: &[u8]) -> (r: usize)
    ensures
        r == (if has_id3v2(buf@) { id3v2_size(buf@) } else { 0 }),
{
    if buf.len() > 10 && buf[0] == 0x49 && buf[1] == 0x44 && buf[2] == 0x33 {
        let (b6, b7, b8, b9) = (buf[6] as usize, buf[7] as usize, buf[8] as usize, buf[9] as usize);
        assert(b6 < 256 && b7 < 256 && b8 < 256 && b9 < 256 ==> ((b6 & 0x7f) << 21usize | (b7 & 0x7f) << 14usize | (
        b8 & 0x7f) << 7usize | b9 & 0x7f) == (b6 % 128) * 0x20_0000 + (b7 % 128) * 0x4000 + (b8 % 128)
            * 0x80 + (b9 % 128)) by (bit_vector);
        ((b6 & 0x7f) << 21 | (b7 & 0x7f) << 14 | (b8 & 0x7f) << 7 | b9 & 0x7f) + 10
    } else {
        0
    }
}


/// The size of the bit reservoir in bytes.
pub const MAX_BITRESERVOIR_BYTES: usize = 511;

/// What a decoder keeps from frame to frame, besides its synthesis state:
/// the bit reservoir, the free-format frame size, and the last header.
pub struct StreamState {
    /// How many bytes of `reserv_buf` hold reservoir data.
    pub reserv: i32,
    /// The frame size (without padding) of a free-format stream, 0 if none.
    pub free_format_bytes: i32,
    /// The header of the last frame; its first byte is 0 where there is none.
    pub header: [u8; 4],
    pub reserv_buf: [u8; 511],
}

/// Where a frame lies in a buffer.
pub struct FrameSpan {
    pub start: usize,
    pub size: usize,
}

/// The outcome of looking for the next frame.
pub struct Located {
    pub info: FrameInfo,
    /// The frame, where one was found.
    pub frame: Option<FrameSpan>,
    /// Whether the stream state was cleared and the frame searched for,
    /// rather than taken to follow the last one.
    pub restarted: bool,
}

/// The size with padding of a frame at the start of `mp3` that continues
/// the stream whose last header is `last`: it must be compatible with that
/// header, and either fill the buffer or be followed by a compatible
/// header. 0 where there is no such frame.
pub open spec fn continued_frame_size(last: Seq<u8>, free_format_size: int, mp3: Seq<u8>) -> int {
    if mp3.len() > 4 && last[0] == 0xFFu8 && compatible_headers(last, mp3) {
        let fs = frame_length(mp3, free_format_size) + padding_bytes(mp3);
        if fs == mp3.len() || (fs + 4 <= mp3.len() && compatible_headers(mp3, at(mp3, fs))) {
            fs
        } else {
            0
        }
    } else {
        0
    }
}

/// What a frame's header tells of it, with `consumed` the bytes up to the
/// frame's end.
pub open spec fn header_info(h: Seq<u8>, consumed: int) -> FrameInfo {
    FrameInfo {
        frame_bytes: consumed as i32,
        channels: if channel_mode(h[3]) == 3u8 { 1 } else { 2 },
        hz: sample_rate_of(h) as i32,
        layer: (4 - layer_field(h[1])) as i32,
        bitrate_kbps: bitrate_of(h) as i32,
        samples: 0,
    }
}

pub open spec fn empty_info(consumed: int) -> FrameInfo {
    FrameInfo { frame_bytes: consumed as i32, channels: 0, hz: 0, layer: 0, bitrate_kbps: 0, samples: 0 }
}

/// What locating a frame gives where the stream restarts: the first frame
/// that `find_frame` finds from a fresh state, or none.
pub open spec fn restarted_located(mp3: Seq<u8>) -> Located {
    let s = scan_frames(mp3, 0, 0);
    if s.1 == 0 {
        Located { info: empty_info(s.0), frame: None, restarted: true }
    } else {
        Located {
            info: header_info(at(mp3, s.0), s.0 + s.1),
            frame: Some(FrameSpan { start: s.0 as usize, size: s.1 as usize }),
            restarted: true,
        }
    }
}

/// The state after a restart on `mp3`: an empty reservoir, the free-format
/// size that the search found, and the header of the frame found, if any.
pub open spec fn restarted_state(st: StreamState, mp3: Seq<u8>) -> bool {
    let s = scan_frames(mp3, 0, 0);
    &&& st.reserv == 0
    &&& forall|i: int| 0 <= i < 511 ==> st.reserv_buf@[i] == 0u8
    &&& st.free_format_bytes == s.2
    &&& s.1 == 0 ==> st.header@ == seq![0u8, 0u8, 0u8, 0u8]
    &&& s.1 != 0 ==> st.header@ == mp3.subrange(s.0, s.0 + 4)
}

impl StreamState {
    pub open spec fn wf(&self) -> bool {
        &&& 0 <= self.reserv <= 511
        &&& 0 <= self.free_format_bytes <= MAX_FREE_FORMAT_FRAME_SIZE
    }

    /// The state of a decoder that has seen no frame.
    pub open spec fn is_initial(&self) -> bool {
        &&& self.reserv == 0
        &&& self.free_format_bytes == 0
        &&& self.header@ == seq![0u8, 0u8, 0u8, 0u8]
        &&& forall|i: int| 0 <= i < 511 ==> self.reserv_buf@[i] == 0u8
    }

    /// The state before the first frame.
    pub fn new() -> (r: Self)
        ensures
            r.is_initial(),
            r.wf(),
    {
        let r = StreamState { reserv: 0, free_format_bytes: 0, header: [0; 4], reserv_buf: [0; 511] };
        assert(r.header@ =~= seq![0u8, 0u8, 0u8, 0u8]);
        r
    }

    /// Forgets the last header, so that the next frame is searched for.
    pub fn reset(&mut self)
        ensures
            final(self).header@ == old(self).header@.update(0, 0u8),
            final(self).reserv == old(self).reserv,
            final(self).free_format_bytes == old(self).free_format_bytes,
            final(self).reserv_buf@ == old(self).reserv_buf@,
    {
        self.header[0] = 0;
    }

    /// The size of a frame at the start of `mp3` that continues the stream,
    /// 0 where there is none.
    fn continuation_size(&self, mp3: &[u8]) -> (r: i32)
        requires
            self.wf(),
            mp3@.len() + 2 * MAX_FREE_FORMAT_FRAME_SIZE <= i32::MAX,
        ensures
            r == continued_frame_size(self.header@, self.free_format_bytes as int, mp3@),
            r >= 0,
            r != 0 ==> mp3@.len() > 4 && valid_header(mp3@) && r <= mp3@.len(),
    {
        let len = mp3.len();
        let mut frame_size: i32 = 0;
        if len > 4 && self.header[0] == 0xff && compare(&self.header, mp3) {
            proof {
                lemma_valid_header_is_sized(mp3@);
                lemma_valid_frame_length_bound(mp3@, self.free_format_bytes as int);
            }
            frame_size = crate::header::frame_bytes(mp3, self.free_format_bytes) + padding(mp3);
            if !(frame_size == len as i32 || (frame_size as usize) + HDR_SIZE <= len && compare(
                mp3,
                &mp3[frame_size as usize..len],
            )) {
                frame_size = 0;
            }
        }
        frame_size
    }

    /// Finds the next frame in `mp3`: the frame at its start where that
    /// continues the stream, else (after clearing the state) the first frame
    /// that `find_frame` finds. Takes the frame's header as the last one.
    pub fn locate_frame(&mut self, mp3: &[u8]) -> (r: Located)
        requires
            old(self).wf(),
            mp3@.len() + 2 * MAX_FREE_FORMAT_FRAME_SIZE <= i32::MAX,
        ensures
            final(self).wf(),
            ({
                let fs = continued_frame_size(old(self).header@, old(self).free_format_bytes as int, mp3@);
                &&& r.restarted == (fs == 0)
                &&& fs != 0 ==> {
                    &&& r.frame == Some(FrameSpan { start: 0, size: fs as usize })
                    &&& r.info == header_info(mp3@, fs)
                    &&& final(self).header@ == mp3@.subrange(0, 4)
                    &&& final(self).reserv == old(self).reserv
                    &&& final(self).reserv_buf@ == old(self).reserv_buf@
                    &&& final(self).free_format_bytes == old(self).free_format_bytes
                }
                &&& fs == 0 ==> {
                    &&& r == restarted_located(mp3@)
                    &&& restarted_state(*final(self), mp3@)
                }
            }),
            r.frame matches Some(f) ==> f.start + f.size <= mp3@.len() && f.start + 4 <= mp3@.len()
                && valid_header(at(mp3@, f.start as int)) && f.size > 0,
            r.frame matches Some(f) ==> r.info.frame_bytes == f.start + f.size,
    {
        let len = mp3.len();
        let mut frame_size = self.continuation_size(mp3);
        let mut i: i32 = 0;
        let restarted = frame_size == 0;
        if frame_size == 0 {
            *self = StreamState::new();
            i = find_frame(mp3, &mut self.free_format_bytes, &mut frame_size);
            if frame_size == 0 || i + frame_size > len as i32 {
                return Located {
                    info: FrameInfo {
                        frame_bytes: i,
                        channels: 0,
                        hz: 0,
                        layer: 0,
                        bitrate_kbps: 0,
                        samples: 0,
                    },
                    frame: None,
                    restarted,
                };
            }
        }
        let start = i as usize;
        let hdr = &mp3[start..len];
        assert(valid_header(hdr@));
        proof {
            lemma_valid_header_is_sized(hdr@);
        }
        self.header = [hdr[0], hdr[1], hdr[2], hdr[3]];
        assert(self.header@ =~= mp3@.subrange(start as int, start + 4));
        let info = frame_info_of(hdr, i + frame_size);
        Located { info, frame: Some(FrameSpan { start, size: frame_size as usize }), restarted }
    }
}

/// The information that a valid header gives of its frame.
fn frame_info_of(hdr: &[u8], consumed: i32) -> (r: FrameInfo)
    requires
        hdr@.len() >= 4,
        valid_header(hdr@),
    ensures
        r == header_info(hdr@, consumed as int),
{
    proof {
        lemma_valid_header_is_sized(hdr@);
    }
    FrameInfo {
        frame_bytes: consumed,
        channels: if is_mono(hdr) { 1 } else { 2 },
        hz: sample_rate_hz(hdr),
        layer: (4 - get_layer(hdr)) as i32,
        bitrate_kbps: bitrate_kbps(hdr),
        samples: 0,
    }
}


/// Once the last header is forgotten (by `reset`, or in a new state) no
/// frame continues the stream: the next frame is searched for afresh.
pub proof fn lemma_forgotten_header_restarts(state: StreamState, mp3: Seq<u8>)
    requires
        state.header@[0] == 0u8,
    ensures
        continued_frame_size(state.header@, state.free_format_bytes as int, mp3) == 0,
{
}


/// The sizes that the free-format search ends with are those it started
/// with, or a distance of at least a header.
proof fn lemma_free_format_search_size(mp3: Seq<u8>, pos: int, k: int, fb: int, fap: int, ffb: int)
    requires
        k >= 4,
    ensures
        free_format_search(mp3, pos, k, fb, fap, ffb).1 == fap || free_format_search(mp3, pos, k, fb, fap, ffb).1 >= 4,
    decreases MAX_FREE_FORMAT_FRAME_SIZE - k,
{
    if fb == 0 && k < MAX_FREE_FORMAT_FRAME_SIZE && pos + 2 * k < mp3.len() - 4 {
        if free_format_pair(mp3, pos, k) {
            let f = k - padding_bytes(at(mp3, pos));
            lemma_free_format_search_size(mp3, pos, k + 1, f, k, f);
        } else {
            lemma_free_format_search_size(mp3, pos, k + 1, fb, fap, ffb);
        }
    }
}

/// A frame that the scan finds, with a free-format size that is not
/// negative, has a positive size.
proof fn lemma_scan_size_positive(mp3: Seq<u8>, pos: int, ffb: int)
    requires
        0 <= pos,
        0 <= ffb,
    ensures
        scan_frames(mp3, pos, ffb).1 >= 0,
    decreases mp3.len() - pos,
{
    if pos < 0 || pos + 4 >= mp3.len() {
    } else if !valid_header(at(mp3, pos)) {
        lemma_scan_size_positive(mp3, pos + 1, ffb);
    } else if accepted_at(mp3, pos, ffb) {
        let view = at(mp3, pos);
        lemma_valid_frame_length_bound(view, ffb);
        let fl = frame_length(view, ffb);
        lemma_free_format_search_size(mp3, pos, 4, fl, fl + padding_bytes(view), ffb);
    } else {
        lemma_scan_size_positive(mp3, pos + 1, 0);
    }
}

/// After `reset`, a state locates the next frame exactly as a fresh state
/// does: both restart, both give the same outcome, and both end in the same
/// state.
pub proof fn lemma_reset_locates_as_fresh(
    reset: StreamState,
    fresh: StreamState,
    mp3: Seq<u8>,
    after_reset: StreamState,
    after_fresh: StreamState,
)
    requires
        reset.header@[0] == 0u8,
        fresh.is_initial(),
        restarted_state(after_reset, mp3),
        restarted_state(after_fresh, mp3),
    ensures
        continued_frame_size(reset.header@, reset.free_format_bytes as int, mp3) == 0,
        continued_frame_size(fresh.header@, fresh.free_format_bytes as int, mp3) == 0,
        after_reset.reserv == after_fresh.reserv,
        after_reset.free_format_bytes == after_fresh.free_format_bytes,
        after_reset.header@ == after_fresh.header@,
        after_reset.reserv_buf@ == after_fresh.reserv_buf@,
{
    assert(after_reset.reserv_buf@ =~= after_fresh.reserv_buf@);
}

/// The bytes that locating a frame reports as used are those skipped before
/// the frame and the frame itself, so a caller that moves on by them lands
/// just past the frame.
pub proof fn lemma_located_bytes_reach_past_the_frame(mp3: Seq<u8>)
    requires
        mp3.len() + 2 * MAX_FREE_FORMAT_FRAME_SIZE <= i32::MAX,
    ensures
        restarted_located(mp3).frame matches Some(f) ==> f.size > 0 && restarted_located(mp3).info.frame_bytes
            == f.start + f.size && f.start + f.size <= mp3.len(),
{
    lemma_scan_found(mp3, 0, 0);
    lemma_scan_size_positive(mp3, 0, 0);
}

/// Where a frame's bit fields start after its header: past the 16-bit
/// checksum where the frame has one.
pub open spec fn body_start(frame: Seq<u8>) -> int {
    if !protection_bit(frame[1]) { 16 } else { 0 }
}

/// A reader of the bytes of a frame after its header, placed past the
/// checksum where there is one.
pub fn frame_bits(frame: &[u8]) -> (r: Bits)
    requires
        frame@.len() >= 4,
    ensures
        r.data@ == frame@.subrange(4, frame@.len() as int),
        r.position == body_start(frame@),
{
    let body = &frame[4..frame.len()];
    if is_crc(frame) {
        Bits::new_with_pos(body, 16)
    } else {
        Bits::new(body)
    }
}

} // verus!
