//! Local screen-capture streaming: parameter validation, the single-slot
//! stream session state, display selection, frame encoding, and the
//! WebSocket origin policy and per-client step function.
//!
//! The blocking capture thread, the TCP listener, and the WebSocket
//! transport live outside the library; they feed plain values into the
//! functions here and carry out the returned decisions.

use vstd::prelude::*;
use crate::text::{int_dec_seq, dec_seq, i32_to_dec, u64_to_dec, str_eq};

verus! {

/// Lowest port the streaming server may bind.
pub const STREAM_PORT_MIN: u16 = 9100;

/// Highest port the streaming server may bind.
pub const STREAM_PORT_MAX: u16 = 9199;

/// Highest accepted capture rate, frames per second.
pub const MAX_FPS: u32 = 30;

/// Frames wider than this are downscaled before streaming.
pub const STREAM_MAX_WIDTH: u32 = 960;

// ---------------------------------------------------------------------------
// Status and display records
// ---------------------------------------------------------------------------

/// Status information returned to the front end.
#[derive(Debug, Clone)]
pub struct StreamStatus {
    pub active: bool,
    pub port: u16,
    pub fps: u32,
    pub quality: i32,
    pub clients: usize,
    pub display_id: Option<u32>,
}

/// Display info for the front-end display picker.
#[derive(Debug, Clone)]
pub struct DisplayInfo {
    pub id: u32,
    pub title: String,
    pub is_primary: bool,
}

/// A capturable display as reported by the operating system: its stable id
/// and its title, as plain values.
#[derive(Debug, Clone)]
pub struct DisplayTarget {
    pub id: u32,
    pub title: String,
}

// ---------------------------------------------------------------------------
// Errors
// ---------------------------------------------------------------------------

/// Everything that can go wrong in the streaming commands before any
/// network or capture work starts.
#[derive(Debug)]
pub enum StreamError {
    /// A stream is already active; at most one may run.
    AlreadyRunning,
    /// `quality` outside 1..=100.
    InvalidQuality(i32),
    /// `fps` outside 1..=MAX_FPS.
    InvalidFps(u32),
    /// `port` outside STREAM_PORT_MIN..=STREAM_PORT_MAX.
    InvalidPort(u16),
    /// The platform has no capture support.
    NotSupported,
    /// Capture permission was not granted.
    PermissionDenied,
    /// No stream is active to stop.
    NoStream,
}

impl StreamError {
    /// The single-line message reported to the front end; validation
    /// messages name the offending field and the rejected value.
    pub fn message(&self) -> (r: String)
        ensures
            match self {
                StreamError::AlreadyRunning => r@ == "Stream already running. Stop it first."@,
                StreamError::InvalidQuality(q) => r@ == "Quality must be 1-100, got: "@
                    + int_dec_seq(*q as int),
                StreamError::InvalidFps(f) => r@ == "FPS must be 1-30, got: "@ + dec_seq(
                    *f as nat,
                ),
                StreamError::InvalidPort(p) => r@ == "Streaming port must be 9100-9199, got: "@
                    + dec_seq(*p as nat),
                StreamError::NotSupported => r@ == "Screen capture not supported on this platform"@,
                StreamError::PermissionDenied => r@
                    == "Screen capture permission not granted. Please allow in System Settings and restart."@,
                StreamError::NoStream => r@ == "No stream is running"@,
            },
    {
        match self {
            StreamError::AlreadyRunning => "Stream already running. Stop it first.".to_owned(),
            StreamError::InvalidQuality(q) => {
                let mut s = "Quality must be 1-100, got: ".to_owned();
                s.append(i32_to_dec(*q).as_str());
                s
            },
            StreamError::InvalidFps(f) => {
                let mut s = "FPS must be 1-30, got: ".to_owned();
                s.append(u64_to_dec(*f as u64).as_str());
                s
            },
            StreamError::InvalidPort(p) => {
                let mut s = "Streaming port must be 9100-9199, got: ".to_owned();
                s.append(u64_to_dec(*p as u64).as_str());
                s
            },
            StreamError::NotSupported => "Screen capture not supported on this platform".to_owned(),
            StreamError::PermissionDenied => "Screen capture permission not granted. Please allow in System Settings and restart.".to_owned(),
            StreamError::NoStream => "No stream is running".to_owned(),
        }
    }
}

// ---------------------------------------------------------------------------
// Parameter validation
// ---------------------------------------------------------------------------

/// Accepted quality range.
pub open spec fn quality_ok(quality: i32) -> bool {
    1 <= quality <= 100
}

/// Accepted frame-rate range.
pub open spec fn fps_ok(fps: u32) -> bool {
    1 <= fps <= MAX_FPS
}

/// Accepted port range.
pub open spec fn port_ok(port: u16) -> bool {
    STREAM_PORT_MIN <= port <= STREAM_PORT_MAX
}

// ---------------------------------------------------------------------------
// Stream session state
// ---------------------------------------------------------------------------

/// The parameters a running stream was started with.
#[derive(Debug, Clone)]
pub struct StreamConfig {
    pub port: u16,
    pub fps: u32,
    pub quality: i32,
    pub display_id: Option<u32>,
}

/// Single-slot state guarding the at-most-one active stream. Empty when no
/// stream runs; otherwise it holds the active stream's parameters.
#[derive(Debug)]
pub struct StreamingState {
    pub session: Option<StreamConfig>,
}

impl Default for StreamingState {
    /// A fresh state with no active stream.
    fn default() -> (r: Self)
        ensures
            r.session is None,
    {
        StreamingState { session: None }
    }
}

impl StreamingState {
    /// True when a stream is active.
    pub open spec fn active(&self) -> bool {
        self.session is Some
    }

    /// Gatekeeper for starting a stream: refuses a second stream, then
    /// validates each parameter in turn. `Ok` exactly when the slot is free
    /// and every parameter is in range.
    pub fn prepare_start(&self, port: u16, quality: i32, fps: u32) -> (r: Result<
        (),
        StreamError,
    >)
        ensures
            r is Ok <==> (!self.active() && quality_ok(quality) && fps_ok(fps) && port_ok(port)),
            r is Err ==> match r->Err_0 {
                StreamError::AlreadyRunning => self.active(),
                StreamError::InvalidQuality(q) => !self.active() && q == quality && !quality_ok(
                    quality,
                ),
                StreamError::InvalidFps(f) => !self.active() && quality_ok(quality) && f == fps
                    && !fps_ok(fps),
                StreamError::InvalidPort(p) => !self.active() && quality_ok(quality) && fps_ok(fps)
                    && p == port && !port_ok(port),
                _ => false,
            },
    {
        if self.session.is_some() {
            return Err(StreamError::AlreadyRunning);
        }
        if quality < 1 || quality > 100 {
            return Err(StreamError::InvalidQuality(quality));
        }
        if fps < 1 || fps > MAX_FPS {
            return Err(StreamError::InvalidFps(fps));
        }
        if port < STREAM_PORT_MIN || port > STREAM_PORT_MAX {
            return Err(StreamError::InvalidPort(port));
        }
        Ok(())
    }

    /// Installs a freshly started stream into the empty slot and returns the
    /// status reported to the caller: active, with the given parameters and
    /// no clients yet.
    pub fn install(&mut self, port: u16, fps: u32, quality: i32, display_id: Option<u32>) -> (st:
        StreamStatus)
        requires
            !old(self).active(),
        ensures
            final(self).session == Some(
                StreamConfig { port, fps, quality, display_id },
            ),
            st == (StreamStatus { active: true, port, fps, quality, clients: 0, display_id }),
    {
        self.session = Some(StreamConfig { port, fps, quality, display_id });
        StreamStatus { active: true, port, fps, quality, clients: 0, display_id }
    }

    /// Empties the slot. `Ok` exactly when a stream was active; the slot is
    /// empty afterwards either way.
    pub fn stop(&mut self) -> (r: Result<(), StreamError>)
        ensures
            r is Ok <==> old(self).active(),
            !final(self).active(),
            r is Err ==> r->Err_0 is NoStream,
    {
        match self.session.take() {
            Some(_) => Ok(()),
            None => Err(StreamError::NoStream),
        }
    }

    /// What a status read reports: the active stream's parameters with the
    /// current client count, or the all-zero inactive status.
    pub open spec fn spec_status(&self, clients: usize) -> StreamStatus {
        match self.session {
            Some(c) => StreamStatus {
                active: true,
                port: c.port,
                fps: c.fps,
                quality: c.quality,
                clients,
                display_id: c.display_id,
            },
            None => StreamStatus {
                active: false,
                port: 0,
                fps: 0,
                quality: 0,
                clients: 0,
                display_id: None,
            },
        }
    }

    /// The status reported to the front end: the active stream's parameters
    /// together with the current client count, or the all-zero inactive
    /// status when the slot is empty.
    pub fn status(&self, clients: usize) -> (st: StreamStatus)
        ensures
            st == self.spec_status(clients),
    {
        match &self.session {
            Some(c) => StreamStatus {
                active: true,
                port: c.port,
                fps: c.fps,
                quality: c.quality,
                clients,
                display_id: c.display_id,
            },
            None => StreamStatus {
                active: false,
                port: 0,
                fps: 0,
                quality: 0,
                clients: 0,
                display_id: None,
            },
        }
    }
}

/// A status read after a successful start reports the started parameters:
/// active, on the started port, with the started rate and quality.
pub proof fn lemma_start_reflects_in_status(
    post: StreamingState,
    port: u16,
    fps: u32,
    quality: i32,
    display_id: Option<u32>,
    clients: usize,
)
    requires
        post.session == Some(StreamConfig { port, fps, quality, display_id }),
    ensures
        post.spec_status(clients) == (StreamStatus {
            active: true,
            port,
            fps,
            quality,
            clients,
            display_id,
        }),
{
}

/// Gate on platform capture capability: `Ok` exactly when capture is
/// supported and permission is granted; lack of support is reported before
/// lack of permission.
pub fn check_capture_platform(supported: bool, permitted: bool) -> (r: Result<(), StreamError>)
    ensures
        r is Ok <==> (supported && permitted),
        r is Err ==> if !supported {
            r->Err_0 is NotSupported
        } else {
            r->Err_0 is PermissionDenied
        },
{
    if !supported {
        Err(StreamError::NotSupported)
    } else if !permitted {
        Err(StreamError::PermissionDenied)
    } else {
        Ok(())
    }
}

// ---------------------------------------------------------------------------
// Display selection
// ---------------------------------------------------------------------------

/// Builds the display list shown in the front-end picker: one entry per
/// capturable display, marked primary exactly when its id is the main
/// display's id. Order is preserved.
pub fn build_display_list(targets: &Vec<DisplayTarget>, main_id: u32) -> (r: Vec<DisplayInfo>)
    ensures
        r@.len() == targets@.len(),
        forall|i: int|
            0 <= i < targets@.len() ==> r@[i].id == targets@[i].id && r@[i].title@
                == targets@[i].title@ && (r@[i].is_primary <==> targets@[i].id == main_id),
{
    let mut out: Vec<DisplayInfo> = Vec::new();
    let n = targets.len();
    let mut i: usize = 0;
    while i < n
        invariant
            n == targets@.len(),
            i <= n,
            out@.len() == i,
            forall|j: int|
                0 <= j < i ==> out@[j].id == targets@[j].id && out@[j].title@
                    == targets@[j].title@ && (out@[j].is_primary <==> targets@[j].id == main_id),
        decreases n - i,
    {
        let t = &targets[i];
        out.push(DisplayInfo { id: t.id, title: t.title.clone(), is_primary: t.id == main_id });
        i = i + 1;
    }
    out
}

/// The display list, behind the platform-support gate.
pub fn displays_or_error(supported: bool, targets: &Vec<DisplayTarget>, main_id: u32) -> (r: Result<
    Vec<DisplayInfo>,
    StreamError,
>)
    ensures
        r is Ok <==> supported,
        r is Err ==> r->Err_0 is NotSupported,
        r is Ok ==> {
            let ds = r->Ok_0;
            &&& ds@.len() == targets@.len()
            &&& forall|i: int|
                0 <= i < targets@.len() ==> ds@[i].id == targets@[i].id && ds@[i].title@
                    == targets@[i].title@ && (ds@[i].is_primary <==> targets@[i].id == main_id)
        },
{
    if !supported {
        Err(StreamError::NotSupported)
    } else {
        Ok(build_display_list(targets, main_id))
    }
}

/// Picks the capture target: the requested display when it exists, the main
/// display when none was requested, and nothing (the platform default) when
/// the requested id is unknown.
pub fn choose_display(requested: Option<u32>, target_ids: &Vec<u32>, main_id: u32) -> (r: Option<
    u32,
>)
    ensures
        match requested {
            None => r == Some(main_id),
            Some(id) => if target_ids@.contains(id) {
                r == Some(id)
            } else {
                r is None
            },
        },
{
    match requested {
        None => Some(main_id),
        Some(id) => {
            let n = target_ids.len();
            let mut i: usize = 0;
            while i < n
                invariant
                    requested == Some(id),
                    n == target_ids@.len(),
                    i <= n,
                    forall|j: int| 0 <= j < i ==> target_ids@[j] != id,
                decreases n - i,
            {
                if target_ids[i] == id {
                    proof {
                        assert(target_ids@.contains(id)) by {
                            assert(target_ids@[i as int] == id);
                        }
                    }
                    return Some(id);
                }
                i = i + 1;
            }
            proof {
                assert(!target_ids@.contains(id));
            }
            None
        },
    }
}

// ---------------------------------------------------------------------------
// Frame encoding
// ---------------------------------------------------------------------------

/// Nearest-neighbour downscale factor for a captured width: 1 when the
/// width already fits, otherwise the width divided by 960 rounded up.
pub open spec fn scale_for(width: nat) -> nat {
    if width <= 960 {
        1
    } else {
        ((width - 1) / 960 + 1) as nat
    }
}

/// Width of the encoded frame.
pub open spec fn dst_width(width: nat) -> nat {
    width / scale_for(width)
}

/// Height of the encoded frame.
pub open spec fn dst_height(width: nat, height: nat) -> nat {
    height / scale_for(width)
}

/// A captured frame the pipeline accepts: non-zero dimensions, a pixel
/// buffer at least as long as the dimensions claim, and a downscaled height
/// that fits the 16-bit header field.
pub open spec fn frame_acceptable(width: nat, height: nat, data_len: nat) -> bool {
    width > 0 && height > 0 && data_len >= width * height * 4 && dst_height(width, height) <= 0xFFFF
}

/// Which source (BGRA) channel feeds each output (RGBA) channel.
pub open spec fn bgra_source_channel(ch: int) -> int {
    if ch == 0 {
        2
    } else if ch == 1 {
        1
    } else if ch == 2 {
        0
    } else {
        3
    }
}

/// The width recorded in an encoded frame's little-endian header.
pub open spec fn frame_header_width(f: Seq<u8>) -> int {
    f[0] + 256 * f[1]
}

/// The height recorded in an encoded frame's little-endian header.
pub open spec fn frame_header_height(f: Seq<u8>) -> int {
    f[2] + 256 * f[3]
}

/// A well-formed wire frame: the length is fully determined by the header,
/// and the width never exceeds 960.
pub open spec fn frame_wf(f: Seq<u8>) -> bool {
    &&& f.len() == 4 + frame_header_width(f) * frame_header_height(f) * 4
    &&& frame_header_width(f) <= 960
}

/// Position of output channel `c` of pixel (`y`, `x`) in an encoded frame
/// of width `dw`.
pub open spec fn pixel_index(dw: int, y: int, x: int, c: int) -> int {
    4 + (y * dw + x) * 4 + c
}

/// Position in the captured BGRA buffer that feeds output channel `c` of
/// encoded pixel (`y`, `x`), for a capture of width `w` sampled at
/// stride `s`.
pub open spec fn source_index(w: int, s: int, y: int, x: int, c: int) -> int {
    (y * s * w + x * s) * 4 + bgra_source_channel(c)
}

/// Pixel positions are ordered row-major: an earlier pixel's bytes lie
/// strictly before a later pixel's first byte.
proof fn lemma_pixel_order(dw: int, i: int, j: int, c: int, y: int, x: int)
    requires
        1 <= dw,
        0 <= c < 4,
        0 <= j < dw,
        0 <= i,
        0 <= x,
        i < y || (i == y && j < x),
    ensures
        pixel_index(dw, i, j, c) < 4 + (y * dw + x) * 4,
{
    assert(4 + (i * dw + j) * 4 + c < 4 + (y * dw + x) * 4) by (nonlinear_arith)
        requires
            1 <= dw,
            0 <= c < 4,
            0 <= j < dw,
            0 <= i,
            0 <= x,
            i < y || (i == y && j < x),
    ;
}

/// The downscaled width always lands in 1..=960.
pub proof fn lemma_dst_width_bound(width: nat)
    requires
        width > 0,
    ensures
        1 <= dst_width(width) <= 960,
        scale_for(width) >= 1,
        width >= scale_for(width),
{
    let s = scale_for(width);
    if width <= 960 {
        assert(dst_width(width) == width);
    } else {
        let q = (width - 1) as int / 960;
        vstd::arithmetic::div_mod::lemma_fundamental_div_mod((width - 1) as int, 960);
        assert(960 * s >= width);
        assert(s <= width) by (nonlinear_arith)
            requires
                s == q + 1,
                (width - 1) as int == 960 * q + ((width - 1) as int % 960),
                0 <= (width - 1) as int % 960 < 960,
                width > 960,
        ;
        assert(width as int / s as int <= 960) by {
            vstd::arithmetic::div_mod::lemma_div_is_ordered(
                width as int,
                960 * s as int,
                s as int,
            );
            vstd::arithmetic::div_mod::lemma_div_multiples_vanish(960, s as int);
        }
        assert(width as int / s as int >= 1) by {
            vstd::arithmetic::div_mod::lemma_div_is_ordered(s as int, width as int, s as int);
            vstd::arithmetic::div_mod::lemma_div_by_self(s as int);
        }
    }
}

/// Every sampled source index stays inside the claimed pixel buffer.
proof fn lemma_src_index_bound(w: int, h: int, s: int, y: int, x: int)
    requires
        w > 0,
        h > 0,
        s >= 1,
        0 <= y < h / s,
        0 <= x < w / s,
    ensures
        0 <= y * s && y * s < h,
        0 <= x * s && x * s < w,
        0 <= (y * s * w + x * s) * 4 + 3 < w * h * 4,
{
    let qh = h / s;
    let rh = h % s;
    let qw = w / s;
    let rw = w % s;
    vstd::arithmetic::div_mod::lemma_fundamental_div_mod(h, s);
    vstd::arithmetic::div_mod::lemma_mod_bound(h, s);
    vstd::arithmetic::div_mod::lemma_fundamental_div_mod(w, s);
    vstd::arithmetic::div_mod::lemma_mod_bound(w, s);
    assert(y * s < h && y * s >= 0) by (nonlinear_arith)
        requires
            h == s * qh + rh,
            0 <= rh < s,
            0 <= y < qh,
            s >= 1,
    ;
    assert(x * s < w && x * s >= 0) by (nonlinear_arith)
        requires
            w == s * qw + rw,
            0 <= rw < s,
            0 <= x < qw,
            s >= 1,
    ;
    assert((y * s * w + x * s) * 4 + 3 < w * h * 4) by (nonlinear_arith)
        requires
            0 <= y * s,
            y * s <= h - 1,
            0 <= x * s,
            x * s <= w - 1,
            w > 0,
            h > 0,
    ;
}

/// Encodes a captured BGRA frame as a wire frame: a 4-byte little-endian
/// width/height header followed by row-major RGBA pixels, downscaled by
/// nearest-neighbour sampling so the width fits in 960 columns. Returns
/// nothing when the captured frame is not acceptable.
pub fn encode_frame(width: u32, height: u32, data: &Vec<u8>) -> (r: Option<Vec<u8>>)
    ensures
        r is Some <==> frame_acceptable(width as nat, height as nat, data@.len()),
        match r {
            Some(f) => {
                let s = scale_for(width as nat) as int;
                let dw = dst_width(width as nat) as int;
                let dh = dst_height(width as nat, height as nat) as int;
                &&& f@.len() == 4 + dw * dh * 4
                &&& f@[0] == dw % 256 && f@[1] == dw / 256
                &&& f@[2] == dh % 256 && f@[3] == dh / 256
                &&& frame_wf(f@)
                &&& forall|y: int, x: int, c: int|
                    0 <= y < dh && 0 <= x < dw && 0 <= c < 4 ==> f@[#[trigger] pixel_index(
                        dw,
                        y,
                        x,
                        c,
                    )] == data@[source_index(width as int, s, y, x, c)]
            },
            None => true,
        },
{
    if width == 0 || height == 0 {
        return None;
    }
    proof {
        assert((width as int) * (height as int) * 4 < 0x10000000000000000000000000000) by (
        nonlinear_arith)
            requires
                width <= 0xFFFFFFFFu32,
                height <= 0xFFFFFFFFu32,
        ;
    }
    let need: u128 = (width as u128) * (height as u128) * 4;
    if (data.len() as u128) < need {
        return None;
    }
    let scale: u32 = if width <= STREAM_MAX_WIDTH {
        1
    } else {
        (width - 1) / STREAM_MAX_WIDTH + 1
    };
    proof {
        assert(scale == scale_for(width as nat));
        lemma_dst_width_bound(width as nat);
    }
    let dw: u32 = width / scale;
    let dh: u32 = height / scale;
    if dh > 0xFFFF {
        return None;
    }
    let mut out: Vec<u8> = Vec::new();
    out.push((dw % 256) as u8);
    out.push((dw / 256) as u8);
    out.push((dh % 256) as u8);
    out.push((dh / 256) as u8);
    let w_us = width as usize;
    let scale_us = scale as usize;
    let dw_us = dw as usize;
    let dh_us = dh as usize;
    let mut y: usize = 0;
    while y < dh_us
        invariant
            scale == scale_for(width as nat),
            dw == dst_width(width as nat),
            dh == dst_height(width as nat, height as nat),
            w_us == width,
            scale_us == scale,
            dw_us == dw,
            dh_us == dh,
            1 <= dw <= 960,
            dh <= 0xFFFF,
            width > 0,
            height > 0,
            data@.len() >= (width as int) * (height as int) * 4,
            data@.len() <= usize::MAX,
            y <= dh_us,
            out@.len() == 4 + y * (dw as int) * 4,
            out@[0] == dw as int % 256 && out@[1] == dw as int / 256,
            out@[2] == dh as int % 256 && out@[3] == dh as int / 256,
            forall|i: int, j: int, c: int|
                0 <= i < y && 0 <= j < dw && 0 <= c < 4 ==> out@[#[trigger] pixel_index(
                    dw as int,
                    i,
                    j,
                    c,
                )] == data@[source_index(width as int, scale as int, i, j, c)],
        decreases dh_us - y,
    {
        let mut x: usize = 0;
        while x < dw_us
            invariant
                scale == scale_for(width as nat),
                dw == dst_width(width as nat),
                dh == dst_height(width as nat, height as nat),
                w_us == width,
                scale_us == scale,
                dw_us == dw,
                dh_us == dh,
                1 <= dw <= 960,
                dh <= 0xFFFF,
                width > 0,
                height > 0,
                data@.len() >= (width as int) * (height as int) * 4,
                data@.len() <= usize::MAX,
                y < dh_us,
                x <= dw_us,
                out@.len() == 4 + (y * (dw as int) + x) * 4,
                out@[0] == dw as int % 256 && out@[1] == dw as int / 256,
                out@[2] == dh as int % 256 && out@[3] == dh as int / 256,
                forall|i: int, j: int, c: int|
                    0 <= i < y && 0 <= j < dw && 0 <= c < 4 ==> out@[#[trigger] pixel_index(
                        dw as int,
                        i,
                        j,
                        c,
                    )] == data@[source_index(width as int, scale as int, i, j, c)],
                forall|j: int, c: int|
                    0 <= j < x && 0 <= c < 4 ==> out@[#[trigger] pixel_index(
                        dw as int,
                        y as int,
                        j,
                        c,
                    )] == data@[source_index(width as int, scale as int, y as int, j, c)],
            decreases dw_us - x,
        {
            proof {
                lemma_src_index_bound(
                    width as int,
                    height as int,
                    scale as int,
                    y as int,
                    x as int,
                );
            }
            proof {
                let yi = y as int;
                let xi = x as int;
                let sci = scale as int;
                let wi = width as int;
                let hi = height as int;
                assert(0 <= yi * sci * wi && 0 <= xi * sci && yi * sci * wi <= yi * sci * wi + xi
                    * sci) by (nonlinear_arith)
                    requires
                        0 <= yi * sci,
                        0 <= xi * sci,
                        0 <= wi,
                ;
                assert((yi * sci * wi + xi * sci) * 4 + 3 < wi * hi * 4);
                assert(wi * hi * 4 <= data@.len());
            }
            let ghost out0 = out@;
            let si = (y * scale_us * w_us + x * scale_us) * 4;
            out.push(data[si + 2]);
            out.push(data[si + 1]);
            out.push(data[si]);
            out.push(data[si + 3]);
            proof {
                let dwi = dw as int;
                let wi = width as int;
                let sci = scale as int;
                let yi = y as int;
                let xi = x as int;
                assert(out0.len() == pixel_index(dwi, yi, xi, 0));
                assert(out@[pixel_index(dwi, yi, xi, 0)] == data@[source_index(wi, sci, yi, xi, 0)]);
                assert(out@[pixel_index(dwi, yi, xi, 1)] == data@[source_index(wi, sci, yi, xi, 1)]);
                assert(out@[pixel_index(dwi, yi, xi, 2)] == data@[source_index(wi, sci, yi, xi, 2)]);
                assert(out@[pixel_index(dwi, yi, xi, 3)] == data@[source_index(wi, sci, yi, xi, 3)]);
                assert forall|i: int, j: int, c: int|
                    0 <= i < yi && 0 <= j < dwi && 0 <= c < 4 implies out@[#[trigger] pixel_index(
                    dwi,
                    i,
                    j,
                    c,
                )] == data@[source_index(wi, sci, i, j, c)] by {
                    lemma_pixel_order(dwi, i, j, c, yi, xi);
                    assert(out@[pixel_index(dwi, i, j, c)] == out0[pixel_index(dwi, i, j, c)]);
                }
                assert forall|j: int, c: int|
                    0 <= j < xi && 0 <= c < 4 implies out@[#[trigger] pixel_index(
                    dwi,
                    yi,
                    j,
                    c,
                )] == data@[source_index(wi, sci, yi, j, c)] by {
                    lemma_pixel_order(dwi, yi, j, c, yi, xi);
                    assert(out@[pixel_index(dwi, yi, j, c)] == out0[pixel_index(dwi, yi, j, c)]);
                }
                assert(out@.len() == 4 + (yi * dwi + xi + 1) * 4) by (nonlinear_arith)
                    requires
                        out@.len() == 4 + (yi * dwi + xi) * 4 + 4,
                ;
            }
            x = x + 1;
        }
        proof {
            let dwi = dw as int;
            let yi = y as int;
            assert(4 + (yi * dwi + dwi) * 4 == 4 + (yi + 1) * dwi * 4) by (nonlinear_arith);
            assert forall|i: int, j: int, c: int|
                0 <= i < yi + 1 && 0 <= j < dwi && 0 <= c < 4 implies out@[#[trigger] pixel_index(
                dwi,
                i,
                j,
                c,
            )] == data@[source_index(width as int, scale as int, i, j, c)] by {
                if i == yi {
                    assert(out@[pixel_index(dwi, yi, j, c)] == data@[source_index(
                        width as int,
                        scale as int,
                        yi,
                        j,
                        c,
                    )]);
                }
            }
        }
        y = y + 1;
    }
    proof {
        let dwi = dw as int;
        let dhi = dh as int;
        assert(out@.len() == 4 + dhi * dwi * 4);
        assert(4 + dhi * dwi * 4 == 4 + dwi * dhi * 4) by (nonlinear_arith);
        assert(frame_header_width(out@) == dwi) by {
            vstd::arithmetic::div_mod::lemma_fundamental_div_mod(dwi, 256);
        }
        assert(frame_header_height(out@) == dhi) by {
            vstd::arithmetic::div_mod::lemma_fundamental_div_mod(dhi, 256);
        }
        assert(frame_wf(out@));
    }
    Some(out)
}

// ---------------------------------------------------------------------------
// WebSocket origin policy
// ---------------------------------------------------------------------------

/// The fixed allowlist of `Origin` header values accepted at handshake.
pub open spec fn allowed_origin_spec(origin: Seq<char>) -> bool {
    ||| origin == "tauri://localhost"@
    ||| origin == "https://tauri.localhost"@
    ||| origin == "http://localhost:1420"@
}

/// Validate a WebSocket `Origin` header against the allowlist.
pub fn is_allowed_origin(origin: &str) -> (r: bool)
    ensures
        r == allowed_origin_spec(origin@),
{
    str_eq(origin, "tauri://localhost") || str_eq(origin, "https://tauri.localhost") || str_eq(
        origin,
        "http://localhost:1420",
    )
}

/// Outcome of the handshake-time authorization check.
#[derive(Debug, PartialEq, Eq, Structural)]
pub enum HandshakeDecision {
    /// Upgrade the connection and count the client.
    Accept,
    /// Answer 403 and drop the connection.
    Forbidden,
}

/// Authorizes a WebSocket handshake from its `Origin` header; a missing
/// header is handed in as the empty string and is rejected.
pub fn handshake_decision(origin: &str) -> (r: HandshakeDecision)
    ensures
        r is Accept <==> allowed_origin_spec(origin@),
{
    if is_allowed_origin(origin) {
        HandshakeDecision::Accept
    } else {
        HandshakeDecision::Forbidden
    }
}

// ---------------------------------------------------------------------------
// Per-client loop decisions
// ---------------------------------------------------------------------------

/// One event observed by a connected client's task.
#[derive(Debug)]
pub enum ClientEvent {
    /// The latest-frame slot changed; the current snapshot is attached.
    FrameChanged(Vec<u8>),
    /// The latest-frame channel closed (producer gone).
    FrameChannelClosed,
    /// A message arrived from the client; its content is ignored.
    MessageReceived,
    /// The client's message stream ended or failed.
    MessageStreamEnded,
    /// The shutdown signal changed to the attached value.
    ShutdownChanged(bool),
}

/// What the client task does next.
#[derive(Debug)]
pub enum ClientAction {
    /// Send the attached bytes as one binary message.
    SendFrame(Vec<u8>),
    /// Keep waiting.
    Idle,
    /// Leave the loop and release the client.
    Disconnect,
}

/// The per-client step function: forward a fresh non-empty frame, skip the
/// empty initial sentinel, ignore incoming messages, and leave on channel
/// closure, stream end, or shutdown.
pub fn client_step(event: ClientEvent) -> (a: ClientAction)
    ensures
        match event {
            ClientEvent::FrameChanged(f) => if f@.len() == 0 {
                a is Idle
            } else {
                a == ClientAction::SendFrame(f)
            },
            ClientEvent::FrameChannelClosed => a is Disconnect,
            ClientEvent::MessageReceived => a is Idle,
            ClientEvent::MessageStreamEnded => a is Disconnect,
            ClientEvent::ShutdownChanged(stop) => if stop {
                a is Disconnect
            } else {
                a is Idle
            },
        },
{
    match event {
        ClientEvent::FrameChanged(f) => {
            if f.len() == 0 {
                ClientAction::Idle
            } else {
                ClientAction::SendFrame(f)
            }
        },
        ClientEvent::FrameChannelClosed => ClientAction::Disconnect,
        ClientEvent::MessageReceived => ClientAction::Idle,
        ClientEvent::MessageStreamEnded => ClientAction::Disconnect,
        ClientEvent::ShutdownChanged(stop) => {
            if stop {
                ClientAction::Disconnect
            } else {
                ClientAction::Idle
            }
        },
    }
}

} // verus!
